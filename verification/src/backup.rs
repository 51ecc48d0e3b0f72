//! Local backups: the records they hold, the course table description exported with them,
//! and importing one into the database.
use vstd::prelude::*;
use std::collections::HashMap;
use rusqlite::OptionalExtension;
use crate::date::chrono_parse_iso_date;
use crate::db::{Calendar, Course, Event, Note, Todo, imported_todo_state};
use crate::text::{chars_of, decimal, decimal_u64, starts_with, string_from_chars, append_str};

verus! {

broadcast use vstd::std_specs::hash::group_hash_axioms;

/// A habit as it is stored in a backup.
#[derive(Debug, Clone)]
pub struct BackupHabit {
    pub id: i64,
    pub title: String,
    pub archived: bool,
    pub created_at: String,
}

/// A day a habit was checked off.
#[derive(Debug, Clone)]
pub struct BackupHabitLog {
    pub habit_id: i64,
    pub log_date: String,
}

/// One field of the course table, described for other programs reading a backup.
#[derive(Debug, Clone)]
pub struct CourseJsonField {
    pub name: String,
    pub json_type: String,
    pub required: bool,
    pub description: String,
}

/// The description of the course table exported with every backup, so that other programs
/// can read `courses` from `schema_id`, `fields` and the value ranges alone.
#[derive(Debug, Clone)]
pub struct CourseJsonSchema {
    pub schema_id: String,
    pub version: u32,
    pub encoding: String,
    pub description: String,
    pub weekday_values: Vec<String>,
    pub period_range: [i64; 2],
    pub week_range: [i64; 2],
    pub color_palette: Vec<String>,
    pub fields: Vec<CourseJsonField>,
}

/// A day skipped (`YYYY-MM-DD`) or a series cut (`from:YYYY-MM-DD`) of an event.
#[derive(Debug, Clone)]
pub struct BackupEventException {
    pub event_id: i64,
    pub occurrence_date: String,
}

/// Everything a local backup holds.
#[derive(Debug, Clone)]
pub struct LocalBackup {
    pub format_version: u32,
    pub exported_at: String,
    pub calendars: Vec<Calendar>,
    pub events: Vec<Event>,
    pub event_exceptions: Vec<BackupEventException>,
    pub todos: Vec<Todo>,
    pub notes: Vec<Note>,
    pub course_schema: CourseJsonSchema,
    pub courses: Vec<Course>,
    pub habits: Vec<BackupHabit>,
    pub habit_logs: Vec<BackupHabitLog>,
}

/// How many records an import added.
#[derive(Debug, Clone)]
pub struct ImportStats {
    pub calendars: usize,
    pub events: usize,
    pub todos: usize,
    pub notes: usize,
    pub courses: usize,
    pub habits: usize,
    pub habit_logs: usize,
}

// ------------------------------------------------------------------
// The course table description
// ------------------------------------------------------------------

/// The weekday values, in ISO order.
pub open spec fn weekday_value_texts() -> Seq<Seq<char>> {
    seq![
        "1=Monday/周一"@,
        "2=Tuesday/周二"@,
        "3=Wednesday/周三"@,
        "4=Thursday/周四"@,
        "5=Friday/周五"@,
        "6=Saturday/周六"@,
        "7=Sunday/周日"@,
    ]
}

/// The eight course colors, by color index.
pub open spec fn color_palette_texts() -> Seq<Seq<char>> {
    seq![
        "#2e6be6"@,
        "#0e9f6e"@,
        "#c77700"@,
        "#d93a49"@,
        "#7c4dff"@,
        "#0891b2"@,
        "#db2777"@,
        "#65a30d"@,
    ]
}

/// The fields of a course: name, JSON type, whether it is required, and what it holds.
pub open spec fn course_field_texts() -> Seq<(Seq<char>, Seq<char>, bool, Seq<char>)> {
    seq![
        ("id"@, "integer"@, false, "TimeHub 本地主键；跨软件导入时可忽略或重新生成。"@),
        ("title"@, "string"@, true, "课程名称。"@),
        ("teacher"@, "string"@, false, "教师姓名；未知时为空字符串。"@),
        ("location"@, "string"@, false, "教室或上课地点；未知时为空字符串。"@),
        ("weekday"@, "integer"@, true, "星期：1=周一，…，7=周日。"@),
        ("start_period"@, "integer"@, true, "开始节次，范围 1–12。"@),
        ("period_count"@, "integer"@, true, "连续占用节数，范围 1–6。结束节次=start_period+period_count-1。"@),
        ("start_week"@, "integer"@, true, "生效起始周，包含该周。"@),
        ("end_week"@, "integer"@, true, "生效结束周，包含该周。"@),
        ("color_index"@, "integer"@, false, "颜色索引 0–7，对应 color_palette；缺省可用 0。"@),
        ("created_at"@, "string"@, false, "本地创建时间，格式 YYYY-MM-DD HH:MM:SS。"@),
        ("updated_at"@, "string"@, false, "本地更新时间，格式 YYYY-MM-DD HH:MM:SS。"@),
    ]
}

pub open spec fn field_view(f: CourseJsonField) -> (Seq<char>, Seq<char>, bool, Seq<char>) {
    (f.name@, f.json_type@, f.required, f.description@)
}

/// The course table description of this version of the backup format.
pub open spec fn is_course_schema(c: CourseJsonSchema) -> bool {
    &&& c.schema_id@ == "timehub.course/v1"@
    &&& c.version == 1
    &&& c.encoding@ == "UTF-8"@
    &&& c.description@ == "TimeHub 周课程表。星期采用 ISO 顺序，节次和周次均从 1 开始；区间端点均包含。"@
    &&& c.weekday_values@.map_values(|s: String| s@) == weekday_value_texts()
    &&& c.period_range@ == seq![1i64, 12i64]
    &&& c.week_range@ == seq![1i64, 30i64]
    &&& c.color_palette@.map_values(|s: String| s@) == color_palette_texts()
    &&& c.fields@.map_values(|f: CourseJsonField| field_view(f)) == course_field_texts()
}

fn field(name: &str, json_type: &str, required: bool, description: &str) -> (r: CourseJsonField)
    ensures
        field_view(r) == (name@, json_type@, required, description@),
{
    CourseJsonField {
        name: name.to_string(),
        json_type: json_type.to_string(),
        required,
        description: description.to_string(),
    }
}

impl Default for CourseJsonSchema {
    fn default() -> (r: Self)
        ensures
            is_course_schema(r),
    {
        let weekday_values = vec![
            "1=Monday/周一".to_string(),
            "2=Tuesday/周二".to_string(),
            "3=Wednesday/周三".to_string(),
            "4=Thursday/周四".to_string(),
            "5=Friday/周五".to_string(),
            "6=Saturday/周六".to_string(),
            "7=Sunday/周日".to_string(),
        ];
        let color_palette = vec![
            "#2e6be6".to_string(),
            "#0e9f6e".to_string(),
            "#c77700".to_string(),
            "#d93a49".to_string(),
            "#7c4dff".to_string(),
            "#0891b2".to_string(),
            "#db2777".to_string(),
            "#65a30d".to_string(),
        ];
        let fields = vec![
            field("id", "integer", false, "TimeHub 本地主键；跨软件导入时可忽略或重新生成。"),
            field("title", "string", true, "课程名称。"),
            field("teacher", "string", false, "教师姓名；未知时为空字符串。"),
            field("location", "string", false, "教室或上课地点；未知时为空字符串。"),
            field("weekday", "integer", true, "星期：1=周一，…，7=周日。"),
            field("start_period", "integer", true, "开始节次，范围 1–12。"),
            field("period_count", "integer", true, "连续占用节数，范围 1–6。结束节次=start_period+period_count-1。"),
            field("start_week", "integer", true, "生效起始周，包含该周。"),
            field("end_week", "integer", true, "生效结束周，包含该周。"),
            field("color_index", "integer", false, "颜色索引 0–7，对应 color_palette；缺省可用 0。"),
            field("created_at", "string", false, "本地创建时间，格式 YYYY-MM-DD HH:MM:SS。"),
            field("updated_at", "string", false, "本地更新时间，格式 YYYY-MM-DD HH:MM:SS。"),
        ];
        let r = CourseJsonSchema {
            schema_id: "timehub.course/v1".to_string(),
            version: 1,
            encoding: "UTF-8".to_string(),
            description: "TimeHub 周课程表。星期采用 ISO 顺序，节次和周次均从 1 开始；区间端点均包含。".to_string(),
            weekday_values,
            period_range: [1, 12],
            week_range: [1, 30],
            color_palette,
            fields,
        };
        assert(r.weekday_values@.map_values(|s: String| s@) =~= weekday_value_texts());
        assert(r.color_palette@.map_values(|s: String| s@) =~= color_palette_texts());
        assert(r.fields@.map_values(|f: CourseJsonField| field_view(f)) =~= course_field_texts());
        assert(r.period_range@ =~= seq![1i64, 12i64]);
        assert(r.week_range@ =~= seq![1i64, 30i64]);
        r
    }
}


// ------------------------------------------------------------------
// Importing a backup
// ------------------------------------------------------------------

#[verifier::external_type_specification]
#[verifier::external_body]
pub struct ExTransaction<'conn>(rusqlite::Transaction<'conn>);

/// Starts a transaction with `rusqlite::Connection::transaction`; nothing is claimed of it.
#[verifier::external_body]
pub(crate) fn begin_transaction(conn: &mut rusqlite::Connection) -> (r: Result<rusqlite::Transaction<'_>, String>) {
    conn.transaction().map_err(|e| e.to_string())
}

/// Commits with `rusqlite::Transaction::commit`; nothing is claimed of the outcome.
#[verifier::external_body]
pub(crate) fn commit_transaction(tx: rusqlite::Transaction<'_>) -> (r: Result<(), String>) {
    tx.commit().map_err(|e| e.to_string())
}

/// `rusqlite::Connection::last_insert_rowid` inside the transaction.
#[verifier::external_body]
fn inserted_rowid(tx: &rusqlite::Transaction<'_>) -> (r: i64) {
    tx.last_insert_rowid()
}

/// The ids of the calendars with this name (`Transaction::prepare`, `Statement::query_map`);
/// what is stored is not known here, so nothing is claimed of the result.
#[verifier::external_body]
fn calendar_ids_by_name(tx: &rusqlite::Transaction<'_>, name: &str) -> (r: Result<Vec<i64>, String>) {
    let mut stmt = tx.prepare("SELECT id FROM calendars WHERE name = ?1").map_err(|e| e.to_string())?;
    let rows = stmt.query_map((name,), |row| row.get(0)).map_err(|e| e.to_string())?;
    rows.collect::<rusqlite::Result<Vec<i64>>>().map_err(|e| e.to_string())
}

/// The smallest of some ids: the oldest calendar of a name, which an imported calendar of
/// that name is matched with.
pub fn smallest_id(ids: &Vec<i64>) -> (r: Option<i64>)
    ensures
        r is None <==> ids@.len() == 0,
        r matches Some(m) ==> ids@.contains(m) && forall|k: int| 0 <= k < ids@.len() ==> m <= #[trigger] ids@[k],
{
    if ids.len() == 0 {
        return None;
    }
    let mut m = ids[0];
    let mut i: usize = 1;
    while i < ids.len()
        invariant
            1 <= i <= ids@.len(),
            ids@.contains(m),
            forall|k: int| 0 <= k < i ==> m <= #[trigger] ids@[k],
        decreases ids@.len() - i,
    {
        if ids[i] < m {
            m = ids[i];
        }
        i = i + 1;
    }
    Some(m)
}

/// Inserts a calendar row with `rusqlite::Connection::execute`.
#[verifier::external_body]
fn insert_calendar_row(tx: &rusqlite::Transaction<'_>, c: &Calendar) -> (r: Result<usize, String>) {
    tx.execute(
        "INSERT INTO calendars (name, color, visible, sort_order, created_at) VALUES (?1, ?2, ?3, ?4, ?5)",
        (&c.name, &c.color, c.visible as i64, c.sort_order, &c.created_at),
    ).map_err(|e| e.to_string())
}

/// Inserts an event row, in the given calendar, with `rusqlite::Connection::execute`.
#[verifier::external_body]
fn insert_event_row(tx: &rusqlite::Transaction<'_>, e: &Event, calendar_id: i64) -> (r: Result<usize, String>) {
    tx.execute(
        "INSERT INTO events (title, date, time, duration_minutes, note, repeat_rule, reminder_offsets, category, calendar_id, created_at, updated_at, source_kind) VALUES (?1, ?2, ?3, ?4, ?5, ?6, ?7, ?8, ?9, ?10, ?11, ?12)",
        (&e.title, &e.date, &e.time, e.duration_minutes, &e.note, &e.repeat_rule, &e.reminder_offsets, &e.category, calendar_id, &e.created_at, &e.updated_at, &e.source_kind),
    ).map_err(|e| e.to_string())
}

/// Inserts an event exception unless it is there (`INSERT OR IGNORE`).
/// Calls `rusqlite::Transaction::execute`, which returns the number of changed rows. Nothing is claimed of the result.
#[verifier::external_body]
fn insert_exception_row(tx: &rusqlite::Transaction<'_>, event_id: i64, occurrence_date: &str) -> (r: Result<usize, String>) {
    tx.execute(
        "INSERT OR IGNORE INTO event_exceptions(event_id, occurrence_date) VALUES (?1, ?2)",
        (event_id, occurrence_date),
    ).map_err(|e| e.to_string())
}

/// Inserts a todo row with the given done flag and status.
/// Calls `rusqlite::Transaction::execute`, which returns the number of changed rows. Nothing is claimed of the result.
#[verifier::external_body]
fn insert_todo_row(tx: &rusqlite::Transaction<'_>, t: &Todo, done: bool, status: &str) -> (r: Result<usize, String>) {
    tx.execute(
        "INSERT INTO todos (title, done, due_date, priority, important, status, created_at, updated_at) VALUES (?1, ?2, ?3, ?4, ?5, ?6, ?7, ?8)",
        (&t.title, done as i64, &t.due_date, t.priority, t.important as i64, status, &t.created_at, &t.updated_at),
    ).map_err(|e| e.to_string())
}

/// Inserts a note row.
/// Calls `rusqlite::Transaction::execute`, which returns the number of changed rows. Nothing is claimed of the result.
#[verifier::external_body]
fn insert_note_row(tx: &rusqlite::Transaction<'_>, n: &Note) -> (r: Result<usize, String>) {
    tx.execute(
        "INSERT INTO notes (title, content, created_at, updated_at) VALUES (?1, ?2, ?3, ?4)",
        (&n.title, &n.content, &n.created_at, &n.updated_at),
    ).map_err(|e| e.to_string())
}

/// Inserts a course row.
/// Calls `rusqlite::Transaction::execute`, which returns the number of changed rows. Nothing is claimed of the result.
#[verifier::external_body]
fn insert_course_row(tx: &rusqlite::Transaction<'_>, c: &Course) -> (r: Result<usize, String>) {
    tx.execute(
        "INSERT INTO courses (title, teacher, location, weekday, start_period, period_count, start_week, end_week, color_index, created_at, updated_at) VALUES (?1, ?2, ?3, ?4, ?5, ?6, ?7, ?8, ?9, ?10, ?11)",
        (&c.title, &c.teacher, &c.location, c.weekday, c.start_period, c.period_count, c.start_week, c.end_week, c.color_index, &c.created_at, &c.updated_at),
    ).map_err(|e| e.to_string())
}

/// Inserts a habit row.
/// Calls `rusqlite::Transaction::execute`, which returns the number of changed rows. Nothing is claimed of the result.
#[verifier::external_body]
fn insert_habit_row(tx: &rusqlite::Transaction<'_>, h: &BackupHabit) -> (r: Result<usize, String>) {
    tx.execute(
        "INSERT INTO habits (title, archived, created_at) VALUES (?1, ?2, ?3)",
        (&h.title, h.archived as i64, &h.created_at),
    ).map_err(|e| e.to_string())
}

/// Inserts a habit check-off unless it is there (`INSERT OR IGNORE`).
/// Calls `rusqlite::Transaction::execute`, which returns the number of changed rows. Nothing is claimed of the result.
#[verifier::external_body]
fn insert_habit_log_row(tx: &rusqlite::Transaction<'_>, habit_id: i64, log_date: &str) -> (r: Result<usize, String>) {
    tx.execute(
        "INSERT OR IGNORE INTO habit_logs (habit_id, log_date) VALUES (?1, ?2)",
        (habit_id, log_date),
    ).map_err(|e| e.to_string())
}


/// A day skipped or cut as it is checked: the text after a leading `from:`, or all of it.
pub open spec fn exception_day_text(v: Seq<char>) -> Seq<char> {
    if starts_with(v, "from:"@) {
        v.subrange(5, v.len() as int)
    } else {
        v
    }
}

/// An exception refers to an event of the backup and names a valid day.
pub open spec fn exception_ok(events: Seq<Event>, x: BackupEventException) -> bool {
    &&& exists|j: int| 0 <= j < events.len() && #[trigger] events[j].id == x.event_id
    &&& chrono_parse_iso_date(exception_day_text(x.occurrence_date@)) is Some
}

/// The backup holds a habit with this id.
pub open spec fn habit_known(habits: Seq<BackupHabit>, id: i64) -> bool {
    exists|j: int| 0 <= j < habits.len() && #[trigger] habits[j].id == id
}

/// The number of check-offs that belong to a habit of the backup.
pub open spec fn known_log_count(logs: Seq<BackupHabitLog>, habits: Seq<BackupHabit>) -> nat
    decreases logs.len(),
{
    if logs.len() == 0 {
        0
    } else {
        known_log_count(logs.drop_last(), habits) + if habit_known(habits, logs.last().habit_id) {
            1nat
        } else {
            0nat
        }
    }
}

/// What is wrong with an exception, if anything: it refers to no event of the backup, or it
/// names no valid day.
pub open spec fn exception_error(events: Seq<Event>, x: BackupEventException) -> Option<Seq<char>> {
    if !(exists|j: int| 0 <= j < events.len() && #[trigger] events[j].id == x.event_id) {
        Some("备份日程例外引用了不存在的日程"@)
    } else if chrono_parse_iso_date(exception_day_text(x.occurrence_date@)) is None {
        Some("备份日程例外日期无效"@)
    } else {
        None
    }
}

/// The error of the first exception that has one.
pub open spec fn exceptions_error(events: Seq<Event>, xs: Seq<BackupEventException>) -> Option<Seq<char>>
    decreases xs.len(),
{
    if xs.len() == 0 {
        None
    } else {
        match exceptions_error(events, xs.drop_last()) {
            Some(e) => Some(e),
            None => exception_error(events, xs.last()),
        }
    }
}

proof fn lemma_exceptions_error_none(events: Seq<Event>, xs: Seq<BackupEventException>)
    requires
        exceptions_error(events, xs) is None,
    ensures
        forall|q: int| 0 <= q < xs.len() ==> exception_ok(events, #[trigger] xs[q]),
    decreases xs.len(),
{
    if xs.len() > 0 {
        lemma_exceptions_error_none(events, xs.drop_last());
        assert forall|q: int| 0 <= q < xs.len() implies exception_ok(events, #[trigger] xs[q]) by {
            if q < xs.len() - 1 {
                assert(xs[q] == xs.drop_last()[q]);
            }
        }
    }
}

/// Whether the backup has an event with this id.
fn has_event(events: &Vec<Event>, id: i64) -> (b: bool)
    ensures
        b == exists|j: int| 0 <= j < events@.len() && #[trigger] events@[j].id == id,
{
    let mut i: usize = 0;
    while i < events.len()
        invariant
            i <= events.len(),
            forall|j: int| 0 <= j < i ==> (#[trigger] events@[j]).id != id,
        decreases events.len() - i,
    {
        if events[i].id == id {
            return true;
        }
        i = i + 1;
    }
    false
}

/// Checks the exceptions of a backup before anything is written: the first one that refers
/// to no event of the backup or names no valid day gives its message.
pub fn check_exceptions(events: &Vec<Event>, xs: &Vec<BackupEventException>) -> (r: Result<(), String>)
    ensures
        match exceptions_error(events@, xs@) {
            Some(e) => r matches Err(m) && m@ == e,
            None => r is Ok,
        },
{
    let mut i: usize = 0;
    while i < xs.len()
        invariant
            i <= xs.len(),
            exceptions_error(events@, xs@.take(i as int)) is None,
        decreases xs.len() - i,
    {
        proof {
            assert(xs@.take(i + 1).drop_last() =~= xs@.take(i as int));
            assert(xs@.take(i + 1).last() == xs@[i as int]);
        }
        let x = &xs[i];
        if !has_event(events, x.event_id) {
            proof {
                lemma_exceptions_error_prefix(events@, xs@, i as int + 1);
            }
            return Err("备份日程例外引用了不存在的日程".to_string());
        }
        let chars = chars_of(x.occurrence_date.as_str());
        let day = match crate::text::strip_prefix_str(&chars, "from:") {
            Some(rest) => rest,
            None => chars,
        };
        proof {
            reveal_strlit("from:");
        }
        let day_text = string_from_chars(&day);
        if crate::date::parse_iso_date(day_text.as_str()).is_none() {
            proof {
                lemma_exceptions_error_prefix(events@, xs@, i as int + 1);
            }
            return Err("备份日程例外日期无效".to_string());
        }
        i = i + 1;
    }
    assert(xs@.take(xs.len() as int) =~= xs@);
    Ok(())
}

/// Once a prefix of the exceptions has an error, the whole list has that error.
proof fn lemma_exceptions_error_prefix(events: Seq<Event>, xs: Seq<BackupEventException>, n: int)
    requires
        0 <= n <= xs.len(),
        exceptions_error(events, xs.take(n)) is Some,
    ensures
        exceptions_error(events, xs) == exceptions_error(events, xs.take(n)),
    decreases xs.len() - n,
{
    if n < xs.len() {
        assert(xs.take(n + 1).drop_last() =~= xs.take(n));
        lemma_exceptions_error_prefix(events, xs, n + 1);
    } else {
        assert(xs.take(n) =~= xs);
    }
}

/// The calendar an imported event goes to, `ids[k]` being the calendar that backup calendar
/// `k` was matched with or added as: that of the last backup calendar with the event's
/// calendar id, or calendar 1 when no backup calendar has it.
pub open spec fn mapped_calendar(cals: Seq<Calendar>, ids: Seq<i64>, backup_calendar: i64) -> i64
    decreases cals.len(),
{
    if cals.len() == 0 {
        1
    } else if cals.last().id == backup_calendar {
        ids[cals.len() - 1]
    } else {
        mapped_calendar(cals.drop_last(), ids, backup_calendar)
    }
}

/// The calendar each backup calendar becomes: the stored one with its name when there is one,
/// else the one added for it.
pub open spec fn calendar_choice(found: Option<i64>, added: i64) -> i64 {
    match found {
        Some(id) => id,
        None => added,
    }
}

/// How many backup calendars were added, that is found no stored calendar by name.
pub open spec fn added_count(found: Seq<Option<i64>>) -> nat
    decreases found.len(),
{
    if found.len() == 0 {
        0
    } else {
        added_count(found.drop_last()) + if found.last() is None {
            1nat
        } else {
            0nat
        }
    }
}

/// The calendar of each backup event, given the calendar each backup calendar became.
pub fn event_calendar_ids(calendars: &Vec<Calendar>, ids: &Vec<i64>, events: &Vec<Event>) -> (r: Vec<i64>)
    requires
        ids@.len() == calendars@.len(),
    ensures
        r@.len() == events@.len(),
        forall|j: int| 0 <= j < events@.len() ==> r@[j] == mapped_calendar(calendars@, ids@, #[trigger] events@[j].calendar_id),
{
    let mut out: Vec<i64> = Vec::new();
    let mut j: usize = 0;
    while j < events.len()
        invariant
            j <= events@.len(),
            ids@.len() == calendars@.len(),
            out@.len() == j,
            forall|q: int| 0 <= q < j ==> out@[q] == mapped_calendar(calendars@, ids@, #[trigger] events@[q].calendar_id),
        decreases events@.len() - j,
    {
        let wanted = events[j].calendar_id;
        let mut k: usize = calendars.len();
        let mut id: i64 = 1;
        assert(calendars@.take(k as int) =~= calendars@);
        while k > 0
            invariant
                k <= calendars@.len(),
                ids@.len() == calendars@.len(),
                mapped_calendar(calendars@, ids@, wanted) == mapped_calendar(calendars@.take(k as int), ids@, wanted),
            ensures
                k > 0 ==> calendars@[k - 1].id == wanted,
            decreases k,
        {
            proof {
                let t = calendars@.take(k as int);
                assert(t.drop_last() =~= calendars@.take(k - 1));
                assert(t.last() == calendars@[k - 1]);
            }
            if calendars[k - 1].id == wanted {
                break;
            }
            k = k - 1;
        }
        if k > 0 {
            id = ids[k - 1];
            assert(calendars@.take(k as int).last() == calendars@[k - 1]);
        } else {
            assert(calendars@.take(0) =~= Seq::<Calendar>::empty());
        }
        out.push(id);
        j = j + 1;
    }
    out
}

pub open spec fn version_error(version: u32) -> Seq<char> {
    "不支持的备份版本："@ + decimal(version as nat)
}

/// Imports a backup by adding to what is stored, never overwriting, in one transaction:
/// records get new ids, a calendar is reused when one with its name exists (events follow
/// their calendar, or go to calendar 1 when theirs is not in the backup), exceptions and
/// check-offs follow their event and habit, and todo states are normalized as on import.
/// Only format version 1 is read; an exception that refers to no event of the backup or
/// names no valid day stops the import.
#[verifier::loop_isolation(false)]
pub fn import_backup(conn: &mut rusqlite::Connection, backup: &LocalBackup) -> (r: Result<ImportStats, String>)
    ensures
        backup.format_version != 1 ==> (r matches Err(e) && e@ == version_error(backup.format_version)),
        backup.format_version == 1 ==> (exceptions_error(backup.events@, backup.event_exceptions@) matches Some(m)
            ==> r matches Err(e) && e@ == m),
        r is Ok ==> backup.format_version == 1 && forall|i: int|
            0 <= i < backup.event_exceptions@.len() ==> exception_ok(backup.events@, #[trigger] backup.event_exceptions@[i]),
        r matches Ok(st) ==> {
            &&& exists|found: Seq<Option<i64>>| found.len() == backup.calendars@.len() && st.calendars == added_count(found)
            &&& st.events == backup.events@.len()
            &&& st.todos == backup.todos@.len()
            &&& st.notes == backup.notes@.len()
            &&& st.courses == backup.courses@.len()
            &&& st.habits == backup.habits@.len()
            &&& st.habit_logs == known_log_count(backup.habit_logs@, backup.habits@)
        },
{
    if backup.format_version != 1 {
        let mut m = chars_of("不支持的备份版本：");
        let d = decimal_u64(backup.format_version as u64);
        crate::text::append_all(&mut m, &d);
        return Err(string_from_chars(&m));
    }
    check_exceptions(&backup.events, &backup.event_exceptions)?;
    proof {
        lemma_exceptions_error_none(backup.events@, backup.event_exceptions@);
    }
    let tx = begin_transaction(conn)?;
    let mut calendar_ids: Vec<i64> = Vec::new();
    let ghost mut found: Seq<Option<i64>> = seq![];
    let mut calendar_count: usize = 0;
    let mut i: usize = 0;
    while i < backup.calendars.len()
        invariant
            i <= backup.calendars@.len(),
            calendar_ids@.len() == i,
            found.len() == i,
            calendar_count <= i,
            calendar_count == added_count(found),
            forall|k: int| 0 <= k < i ==> (#[trigger] found[k] matches Some(id) ==> calendar_ids@[k] == id),
        decreases backup.calendars@.len() - i,
    {
        let c = &backup.calendars[i];
        let same_name = calendar_ids_by_name(&tx, c.name.as_str())?;
        let existing = smallest_id(&same_name);
        let id = match existing {
            Some(id) => id,
            None => {
                insert_calendar_row(&tx, c)?;
                calendar_count = calendar_count + 1;
                inserted_rowid(&tx)
            },
        };
        proof {
            let before = found;
            found = found.push(existing);
            assert(found.drop_last() =~= before);
        }
        calendar_ids.push(id);
        i = i + 1;
    }
    let event_calendars = event_calendar_ids(&backup.calendars, &calendar_ids, &backup.events);
    let mut event_ids: HashMap<i64, i64> = HashMap::new();
    let mut event_count: usize = 0;
    i = 0;
    while i < backup.events.len()
        invariant
            i <= backup.events@.len(),
            event_count == i,
            event_calendars@.len() == backup.events@.len(),
            forall|k: i64|
                #![trigger event_ids@.contains_key(k)]
                event_ids@.contains_key(k) <==> exists|j: int| 0 <= j < i && #[trigger] backup.events@[j].id == k,
        decreases backup.events@.len() - i,
    {
        let e = &backup.events[i];
        insert_event_row(&tx, e, event_calendars[i])?;
        event_count = event_count + 1;
        let new_id = inserted_rowid(&tx);
        let ghost before = event_ids@;
        event_ids.insert(e.id, new_id);
        proof {
            assert forall|k: i64|
                #![trigger event_ids@.contains_key(k)]
                event_ids@.contains_key(k) <==> exists|j: int| 0 <= j < i + 1 && #[trigger] backup.events@[j].id == k by {
                if k == e.id {
                    assert(backup.events@[i as int].id == k);
                } else if event_ids@.contains_key(k) {
                    assert(before.contains_key(k));
                } else {
                    assert(!before.contains_key(k));
                }
            }
        }
        i = i + 1;
    }
    i = 0;
    while i < backup.event_exceptions.len()
        invariant
            i <= backup.event_exceptions@.len(),
            forall|k: i64|
                #![trigger event_ids@.contains_key(k)]
                event_ids@.contains_key(k) <==> exists|j: int| 0 <= j < backup.events@.len() && #[trigger] backup.events@[j].id == k,
            forall|q: int| 0 <= q < i ==> exception_ok(backup.events@, #[trigger] backup.event_exceptions@[q]),
        decreases backup.event_exceptions@.len() - i,
    {
        let x = &backup.event_exceptions[i];
        let event_id = match event_ids.get(&x.event_id) {
            Some(v) => *v,
            None => {
                return Err("备份日程例外引用了不存在的日程".to_string());
            },
        };
        assert(event_ids@.contains_key(x.event_id));
        let xs = chars_of(x.occurrence_date.as_str());
        let day = match crate::text::strip_prefix_str(&xs, "from:") {
            Some(rest) => rest,
            None => xs,
        };
        proof {
            reveal_strlit("from:");
        }
        let day_text = string_from_chars(&day);
        if crate::date::parse_iso_date(day_text.as_str()).is_none() {
            return Err("备份日程例外日期无效".to_string());
        }
        insert_exception_row(&tx, event_id, x.occurrence_date.as_str())?;
        i = i + 1;
    }
    let mut todo_count: usize = 0;
    i = 0;
    while i < backup.todos.len()
        invariant
            i <= backup.todos@.len(),
            todo_count == i,
        decreases backup.todos@.len() - i,
    {
        let t = &backup.todos[i];
        let (done, status) = crate::db::import_todo_state(t.status.as_str(), t.done);
        insert_todo_row(&tx, t, done, status.as_str())?;
        todo_count = todo_count + 1;
        i = i + 1;
    }
    let mut note_count: usize = 0;
    i = 0;
    while i < backup.notes.len()
        invariant
            i <= backup.notes@.len(),
            note_count == i,
        decreases backup.notes@.len() - i,
    {
        insert_note_row(&tx, &backup.notes[i])?;
        note_count = note_count + 1;
        i = i + 1;
    }
    let mut course_count: usize = 0;
    i = 0;
    while i < backup.courses.len()
        invariant
            i <= backup.courses@.len(),
            course_count == i,
        decreases backup.courses@.len() - i,
    {
        insert_course_row(&tx, &backup.courses[i])?;
        course_count = course_count + 1;
        i = i + 1;
    }
    let mut habit_ids: HashMap<i64, i64> = HashMap::new();
    let mut habit_count: usize = 0;
    i = 0;
    while i < backup.habits.len()
        invariant
            i <= backup.habits@.len(),
            habit_count == i,
            forall|k: i64|
                #![trigger habit_ids@.contains_key(k)]
                habit_ids@.contains_key(k) <==> exists|j: int| 0 <= j < i && #[trigger] backup.habits@[j].id == k,
        decreases backup.habits@.len() - i,
    {
        let h = &backup.habits[i];
        insert_habit_row(&tx, h)?;
        let new_id = inserted_rowid(&tx);
        let ghost before = habit_ids@;
        habit_ids.insert(h.id, new_id);
        proof {
            assert forall|k: i64|
                #![trigger habit_ids@.contains_key(k)]
                habit_ids@.contains_key(k) <==> exists|j: int| 0 <= j < i + 1 && #[trigger] backup.habits@[j].id == k by {
                if k == h.id {
                    assert(backup.habits@[i as int].id == k);
                } else if habit_ids@.contains_key(k) {
                    assert(before.contains_key(k));
                } else {
                    assert(!before.contains_key(k));
                }
            }
        }
        habit_count = habit_count + 1;
        i = i + 1;
    }
    let mut log_count: usize = 0;
    i = 0;
    while i < backup.habit_logs.len()
        invariant
            i <= backup.habit_logs@.len(),
            log_count <= i,
            log_count == known_log_count(backup.habit_logs@.take(i as int), backup.habits@),
            forall|k: i64|
                #![trigger habit_ids@.contains_key(k)]
                habit_ids@.contains_key(k) <==> habit_known(backup.habits@, k),
        decreases backup.habit_logs@.len() - i,
    {
        let log = &backup.habit_logs[i];
        proof {
            let t = backup.habit_logs@.take(i + 1);
            assert(t.drop_last() =~= backup.habit_logs@.take(i as int));
            assert(t.last() == backup.habit_logs@[i as int]);
        }
        match habit_ids.get(&log.habit_id) {
            Some(new_id) => {
                insert_habit_log_row(&tx, *new_id, log.log_date.as_str())?;
                log_count = log_count + 1;
            },
            None => {},
        }
        i = i + 1;
    }
    assert(backup.habit_logs@.take(backup.habit_logs@.len() as int) =~= backup.habit_logs@);
    commit_transaction(tx)?;
    assert(found.len() == backup.calendars@.len() && calendar_count == added_count(found));
    Ok(ImportStats {
        calendars: calendar_count,
        events: event_count,
        todos: todo_count,
        notes: note_count,
        courses: course_count,
        habits: habit_count,
        habit_logs: log_count,
    })
}

// ------------------------------------------------------------------
// Export
// ------------------------------------------------------------------

/// Every check-off as habit id and day, by day and then habit; nothing is claimed of the
/// rows.
/// Calls `rusqlite::Connection::prepare` and `rusqlite::Statement::query_map`, reading each row as a tuple (`TryFrom<&Row>`).
#[verifier::external_body]
fn habit_log_rows(conn: &rusqlite::Connection) -> (r: Result<Vec<(i64, String)>, String>) {
    let mut stmt = conn
        .prepare("SELECT habit_id, log_date FROM habit_logs ORDER BY log_date, habit_id")
        .map_err(|e| e.to_string())?;
    let rows = stmt.query_map([], |row| <(i64, String)>::try_from(row)).map_err(|e| e.to_string())?;
    rows.collect::<rusqlite::Result<Vec<(i64, String)>>>().map_err(|e| e.to_string())
}

/// Every exception of a stored event as event id and value, by event and value.
/// Calls `rusqlite::Connection::prepare` and `rusqlite::Statement::query_map`, reading each row as a tuple (`TryFrom<&Row>`). Nothing is claimed of the result.
#[verifier::external_body]
fn exception_rows(conn: &rusqlite::Connection) -> (r: Result<Vec<(i64, String)>, String>) {
    let mut stmt = conn
        .prepare("SELECT x.event_id, x.occurrence_date FROM event_exceptions x JOIN events e ON e.id = x.event_id ORDER BY x.event_id, x.occurrence_date")
        .map_err(|e| e.to_string())?;
    let rows = stmt.query_map([], |row| <(i64, String)>::try_from(row)).map_err(|e| e.to_string())?;
    rows.collect::<rusqlite::Result<Vec<(i64, String)>>>().map_err(|e| e.to_string())
}

/// A backup of everything stored: calendars, events with their exceptions, todos, notes,
/// courses (with the description of their format), habits and check-offs. It is written in
/// format version 1, the one `import_backup` reads.
pub fn export_backup(conn: &rusqlite::Connection) -> (r: Result<LocalBackup, String>)
    ensures
        r matches Ok(b) ==> b.format_version == 1 && is_course_schema(b.course_schema),
{
    let stored_habits = crate::db::list_habits(conn, true)?;
    let mut habits: Vec<BackupHabit> = Vec::new();
    for h in stored_habits {
        habits.push(BackupHabit { id: h.id, title: h.title, archived: h.archived, created_at: h.created_at });
    }
    let mut habit_logs: Vec<BackupHabitLog> = Vec::new();
    for (habit_id, log_date) in habit_log_rows(conn)? {
        habit_logs.push(BackupHabitLog { habit_id, log_date });
    }
    let mut event_exceptions: Vec<BackupEventException> = Vec::new();
    for (event_id, occurrence_date) in exception_rows(conn)? {
        event_exceptions.push(BackupEventException { event_id, occurrence_date });
    }
    let calendars = crate::event_store::list_calendars(conn)?;
    let events = crate::event_store::list_all_events(conn)?;
    let todos = crate::record_store::list_all_todos(conn)?;
    let notes = crate::record_store::list_notes(conn)?;
    let courses = crate::db::list_courses(conn)?;
    Ok(LocalBackup {
        format_version: 1,
        exported_at: crate::db::local_timestamp(),
        calendars,
        events,
        event_exceptions,
        todos,
        notes,
        course_schema: CourseJsonSchema::default(),
        courses,
        habits,
        habit_logs,
    })
}

} // verus!
