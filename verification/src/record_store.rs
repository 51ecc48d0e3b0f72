//! Stored todos and notes: the board status that goes with a todo's done flag, the filters
//! of a todo list, and the plain reads and writes around them.

use crate::date::{iso_date_text, Date};
use crate::db::{last_insert_rowid, local_timestamp, todo_status_done, Note, Todo};
use crate::event_store::execute_with_id;
use rusqlite::OptionalExtension;
use vstd::prelude::*;

verus! {

// ------------------------------------------------------------------
// Calls into rusqlite
// ------------------------------------------------------------------

/// A stored todo as its columns: id, title, done (0 or not), due date, priority, important
/// (0 or not), status, creation and update times.
pub type TodoRow = (i64, String, i64, Option<String>, i64, i64, String, String, String);

/// A stored note as its columns: id, title, content, creation and update times.
pub type NoteRow = (i64, String, String, String, String);

/// The todos, by done flag, priority (highest first), due date (none last) and id (newest
/// first); when given, only those due on that day and only those with that done flag.
/// The contract claims only what the `WHERE` clause asks of each row (the due date equal
/// to the given text, the done column equal to the given flag); which rows are stored,
/// and their order, are left unsaid.
/// Calls `rusqlite::Connection::prepare` and `rusqlite::Statement::query_map`, reading each row as a tuple (`TryFrom<&Row>`).
#[verifier::external_body]
fn todo_rows(conn: &rusqlite::Connection, due: Option<&str>, done: Option<i64>) -> (r: Result<Vec<TodoRow>, String>)
    ensures
        r matches Ok(v) ==> forall|k: int| 0 <= k < v@.len() ==> {
            &&& (due matches Some(d) ==> (#[trigger] v@[k]).3 matches Some(t) && t@ == d@)
            &&& (done matches Some(f) ==> v@[k].2 == f)
        },
{
    let sql = "SELECT id, title, done, due_date, priority, important, status, created_at, updated_at FROM todos WHERE (?1 IS NULL OR due_date = ?1) AND (?2 IS NULL OR done = ?2) ORDER BY done, priority DESC, due_date IS NULL, due_date, id DESC";
    let mut stmt = conn.prepare(sql).map_err(|e| e.to_string())?;
    let rows = stmt.query_map((due, done), |row| TodoRow::try_from(row)).map_err(|e| e.to_string())?;
    rows.collect::<rusqlite::Result<Vec<TodoRow>>>().map_err(|e| e.to_string())
}

/// The todo with this id, if any.
/// Calls `rusqlite::Connection::query_row` made optional with `rusqlite::OptionalExtension::optional`.
/// The contract claims only that a row read has the id asked for (`WHERE id = ?1`);
/// whether one is stored, and what it holds, are left unsaid.
#[verifier::external_body]
fn todo_row_by_id(conn: &rusqlite::Connection, id: i64) -> (r: Result<Option<TodoRow>, String>)
    ensures
        r matches Ok(Some(row)) ==> row.0 == id,
{
    conn.query_row(
        "SELECT id, title, done, due_date, priority, important, status, created_at, updated_at FROM todos WHERE id = ?1",
        (id,),
        |row| TodoRow::try_from(row),
    )
    .optional()
    .map_err(|e| e.to_string())
}

/// Inserts a todo row with the given fields, created and updated at `now`.
/// Calls `rusqlite::Connection::execute`, which returns the number of changed rows. Nothing is claimed of the result.
#[verifier::external_body]
fn insert_todo(
    conn: &rusqlite::Connection,
    title: &str,
    done: bool,
    due: Option<&str>,
    priority: i64,
    important: bool,
    status: &str,
    now: &str,
) -> (r: Result<usize, String>) {
    conn.execute(
        "INSERT INTO todos (title, done, due_date, priority, important, status, created_at, updated_at) VALUES (?1, ?2, ?3, ?4, ?5, ?6, ?7, ?7)",
        (title, done, due, priority, important, status, now),
    )
    .map_err(|e| e.to_string())
}

/// Sets a todo's done flag and status together.
/// Calls `rusqlite::Connection::execute`, which returns the number of changed rows. Nothing is claimed of the result.
#[verifier::external_body]
fn write_todo_state(conn: &rusqlite::Connection, id: i64, done: bool, status: &str, now: &str) -> (r: Result<usize, String>) {
    conn.execute(
        "UPDATE todos SET done = ?1, status = ?2, updated_at = ?3 WHERE id = ?4",
        (done as i64, status, now, id),
    )
    .map_err(|e| e.to_string())
}

/// Sets a todo's important flag.
/// Calls `rusqlite::Connection::execute`, which returns the number of changed rows. Nothing is claimed of the result.
#[verifier::external_body]
fn write_todo_important(conn: &rusqlite::Connection, id: i64, important: bool, now: &str) -> (r: Result<usize, String>) {
    conn.execute(
        "UPDATE todos SET important = ?1, updated_at = ?2 WHERE id = ?3",
        (important as i64, now, id),
    )
    .map_err(|e| e.to_string())
}

/// The notes, newest first.
/// Calls `rusqlite::Connection::prepare` and `rusqlite::Statement::query_map`, reading each row as a tuple (`TryFrom<&Row>`).
/// The contract claims only the order that `ORDER BY id DESC` gives; which rows are stored
/// is left unsaid.
#[verifier::external_body]
fn note_rows(conn: &rusqlite::Connection) -> (r: Result<Vec<NoteRow>, String>)
    ensures
        r matches Ok(v) ==> forall|i: int, j: int| 0 <= i < j < v@.len() ==> (#[trigger] v@[i]).0 >= (#[trigger] v@[j]).0,
{
    let mut stmt = conn
        .prepare("SELECT id, title, content, created_at, updated_at FROM notes ORDER BY id DESC")
        .map_err(|e| e.to_string())?;
    let rows = stmt.query_map([], |row| NoteRow::try_from(row)).map_err(|e| e.to_string())?;
    rows.collect::<rusqlite::Result<Vec<NoteRow>>>().map_err(|e| e.to_string())
}

/// The note with this id (`query_row`: no row is an error).
/// Calls `rusqlite::Connection::query_row`. The contract claims only that the row read has
/// the id asked for (`WHERE id = ?1`); what it holds is left unsaid.
#[verifier::external_body]
fn note_row_by_id(conn: &rusqlite::Connection, id: i64) -> (r: Result<NoteRow, String>)
    ensures
        r matches Ok(row) ==> row.0 == id,
{
    conn.query_row(
        "SELECT id, title, content, created_at, updated_at FROM notes WHERE id = ?1",
        (id,),
        |row| NoteRow::try_from(row),
    )
    .map_err(|e| e.to_string())
}

/// Inserts a note; creation and update time are both `now`.
/// Calls `rusqlite::Connection::execute`, which returns the number of changed rows. Nothing is claimed of the result.
#[verifier::external_body]
fn insert_note(conn: &rusqlite::Connection, title: &str, content: &str, now: &str) -> (r: Result<usize, String>) {
    conn.execute(
        "INSERT INTO notes (title, content, created_at, updated_at) VALUES (?1, ?2, ?3, ?3)",
        (title, content, now),
    )
    .map_err(|e| e.to_string())
}

/// Replaces a note's title and content.
/// Calls `rusqlite::Connection::execute`, which returns the number of changed rows. Nothing is claimed of the result.
#[verifier::external_body]
fn write_note(conn: &rusqlite::Connection, id: i64, title: &str, content: &str, now: &str) -> (r: Result<usize, String>) {
    conn.execute(
        "UPDATE notes SET title = ?1, content = ?2, updated_at = ?3 WHERE id = ?4",
        (title, content, now, id),
    )
    .map_err(|e| e.to_string())
}

// ------------------------------------------------------------------
// Todos
// ------------------------------------------------------------------

pub open spec fn todo_of_row_spec(r: TodoRow) -> Todo {
    Todo {
        id: r.0,
        title: r.1,
        done: r.2 != 0,
        due_date: r.3,
        priority: r.4,
        important: r.5 != 0,
        status: r.6,
        created_at: r.7,
        updated_at: r.8,
    }
}

fn todo_of_row(r: TodoRow) -> (t: Todo)
    ensures
        t == todo_of_row_spec(r),
{
    Todo {
        id: r.0,
        title: r.1,
        done: r.2 != 0,
        due_date: r.3,
        priority: r.4,
        important: r.5 != 0,
        status: r.6,
        created_at: r.7,
        updated_at: r.8,
    }
}

/// The todos, done ones last, then by priority and due date; only those due on `due_date`
/// and only those with the done flag `done` when these are given.
pub fn list_todos(conn: &rusqlite::Connection, due_date: Option<&Date>, done: Option<bool>) -> (r: Result<Vec<Todo>, String>)
    requires
        due_date matches Some(d) ==> d.wf(),
    ensures
        r matches Ok(v) ==> forall|k: int| 0 <= k < v@.len() ==> {
            &&& (due_date matches Some(d) ==> (#[trigger] v@[k]).due_date matches Some(t) && t@ == iso_date_text(*d))
            &&& (done matches Some(f) ==> v@[k].done == f)
        },
{
    let due: Option<String> = match due_date {
        Some(d) => Some(d.to_iso_string()),
        None => None,
    };
    let due_ref: Option<&str> = match &due {
        Some(s) => Some(s.as_str()),
        None => None,
    };
    let done_flag: Option<i64> = match done {
        Some(true) => Some(1),
        Some(false) => Some(0),
        None => None,
    };
    let rows = todo_rows(conn, due_ref, done_flag)?;
    let mut out: Vec<Todo> = Vec::new();
    let ghost all = rows@;
    for row in it: rows
        invariant
            it.seq() == all,
            out@.len() == it.index(),
            forall|k: int| 0 <= k < out@.len() ==> (#[trigger] out@[k]) == todo_of_row_spec(all[k]),
    {
        out.push(todo_of_row(row));
    }
    Ok(out)
}

/// Every todo, for the board and the four quadrants, which look at all that is not done
/// rather than at one day.
pub fn list_all_todos(conn: &rusqlite::Connection) -> (r: Result<Vec<Todo>, String>)
{
    list_todos(conn, None, None)
}

/// The todo with this id, if any.
pub fn get_todo(conn: &rusqlite::Connection, id: i64) -> (r: Result<Option<Todo>, String>)
    ensures
        r matches Ok(Some(t)) ==> t.id == id,
{
    match todo_row_by_id(conn, id)? {
        Some(row) => Ok(Some(todo_of_row(row))),
        None => Ok(None),
    }
}

/// The todo read back after a write; a todo that is gone is an error.
fn todo_after_write(conn: &rusqlite::Connection, id: i64, missing: &str) -> (r: Result<Todo, String>)
    ensures
        r matches Ok(t) ==> t.id == id,
{
    match get_todo(conn, id)? {
        Some(t) => Ok(t),
        None => Err(missing.to_string()),
    }
}

/// Stores a new todo (not done, not important, in the `todo` column) and reads it back.
pub fn create_todo(conn: &rusqlite::Connection, title: &str, due_date: Option<&Date>, priority: i64) -> (r: Result<Todo, String>)
    requires
        due_date matches Some(d) ==> d.wf(),
{
    let due: Option<String> = match due_date {
        Some(d) => Some(d.to_iso_string()),
        None => None,
    };
    let due_ref: Option<&str> = match &due {
        Some(s) => Some(s.as_str()),
        None => None,
    };
    let now = local_timestamp();
    insert_todo(conn, title, false, due_ref, priority, false, status_for_done(false), now.as_str())?;
    let id = last_insert_rowid(conn);
    todo_after_write(conn, id, "刚插入的待办读取失败")
}

/// The board column that goes with a done flag: `done`, or back to `todo`.
pub fn status_for_done(done: bool) -> (s: &'static str)
    ensures
        s@ == (if done {
            "done"@
        } else {
            "todo"@
        }),
{
    if done {
        "done"
    } else {
        "todo"
    }
}

/// Ticks a todo off or back on; its board column follows (`status_for_done`).
pub fn set_todo_done(conn: &rusqlite::Connection, id: i64, done: bool) -> (r: Result<Todo, String>)
    ensures
        r matches Ok(t) ==> t.id == id,
{
    let now = local_timestamp();
    write_todo_state(conn, id, done, status_for_done(done), now.as_str())?;
    todo_after_write(conn, id, "更新后的待办读取失败")
}

/// Flips a todo's done flag; a todo that is not stored is an error.
pub fn toggle_todo(conn: &rusqlite::Connection, id: i64) -> (r: Result<Todo, String>)
    ensures
        r matches Ok(t) ==> t.id == id,
{
    let existing = match get_todo(conn, id)? {
        Some(t) => t,
        None => return Err("待办不存在".to_string()),
    };
    set_todo_done(conn, id, !existing.done)
}

/// Marks a todo important or not (the four quadrants; urgency comes from the due date).
pub fn set_todo_important(conn: &rusqlite::Connection, id: i64, important: bool) -> (r: Result<Todo, String>)
    ensures
        r matches Ok(t) ==> t.id == id,
{
    let now = local_timestamp();
    write_todo_important(conn, id, important, now.as_str())?;
    todo_after_write(conn, id, "更新后的待办读取失败")
}

/// Moves a todo to a board column (`todo`, `doing` or `done`); the done flag follows, so
/// ticking a todo off in the list and moving it to the done column agree. Any other
/// column is refused before anything is written (see `todo_status_done`).
pub fn set_todo_status(conn: &rusqlite::Connection, id: i64, status: &str) -> (r: Result<Todo, String>)
    ensures
        !(status@ == "todo"@ || status@ == "doing"@ || status@ == "done"@) ==> (r matches Err(e)
            && e@ == "无效的待办状态："@ + status@ + "（应为 todo、doing 或 done）"@),
        r matches Ok(t) ==> t.id == id,
{
    let done = todo_status_done(status)?;
    let now = local_timestamp();
    write_todo_state(conn, id, done, status, now.as_str())?;
    todo_after_write(conn, id, "更新后的待办读取失败")
}

/// Deletes a todo; returns how many were deleted.
pub fn delete_todo(conn: &rusqlite::Connection, id: i64) -> (r: Result<usize, String>)
{
    execute_with_id(conn, "DELETE FROM todos WHERE id = ?1", id)
}

// ------------------------------------------------------------------
// Notes
// ------------------------------------------------------------------

fn note_of_row(r: NoteRow) -> (n: Note)
    ensures
        n == (Note { id: r.0, title: r.1, content: r.2, created_at: r.3, updated_at: r.4 }),
{
    Note { id: r.0, title: r.1, content: r.2, created_at: r.3, updated_at: r.4 }
}

/// The notes, newest first.
pub fn list_notes(conn: &rusqlite::Connection) -> (r: Result<Vec<Note>, String>)
    ensures
        r matches Ok(v) ==> forall|i: int, j: int| 0 <= i < j < v@.len() ==> (#[trigger] v@[i]).id >= (#[trigger] v@[j]).id,
{
    let rows = note_rows(conn)?;
    let mut out: Vec<Note> = Vec::new();
    let ghost all = rows@;
    for row in it: rows
        invariant
            it.seq() == all,
            out@.len() == it.index(),
            forall|k: int| 0 <= k < out@.len() ==> (#[trigger] out@[k]).id == all[k].0,
    {
        out.push(note_of_row(row));
    }
    Ok(out)
}

/// Stores a new note and reads it back.
pub fn create_note(conn: &rusqlite::Connection, title: &str, content: &str) -> (r: Result<Note, String>)
{
    let now = local_timestamp();
    insert_note(conn, title, content, now.as_str())?;
    let id = last_insert_rowid(conn);
    let row = note_row_by_id(conn, id)?;
    Ok(note_of_row(row))
}

/// Replaces a note's title and content and reads it back.
pub fn update_note(conn: &rusqlite::Connection, id: i64, title: &str, content: &str) -> (r: Result<Note, String>)
    ensures
        r matches Ok(n) ==> n.id == id,
{
    let now = local_timestamp();
    write_note(conn, id, title, content, now.as_str())?;
    let row = note_row_by_id(conn, id)?;
    Ok(note_of_row(row))
}

/// Deletes a note; returns how many were deleted.
pub fn delete_note(conn: &rusqlite::Connection, id: i64) -> (r: Result<usize, String>)
{
    execute_with_id(conn, "DELETE FROM notes WHERE id = ?1", id)
}

} // verus!
