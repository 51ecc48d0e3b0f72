use rili::date::Date;
use rili::record_store::{
    create_note, create_todo, delete_note, delete_todo, get_todo, list_all_todos, list_notes,
    list_todos, set_todo_done, set_todo_important, set_todo_status, status_for_done, toggle_todo,
    update_note,
};
use rusqlite::Connection;

fn records_db() -> Connection {
    let conn = Connection::open_in_memory().unwrap();
    conn.execute_batch(
        "CREATE TABLE todos (
            id INTEGER PRIMARY KEY AUTOINCREMENT,
            title TEXT NOT NULL,
            done INTEGER NOT NULL DEFAULT 0,
            due_date TEXT,
            priority INTEGER NOT NULL DEFAULT 0,
            important INTEGER NOT NULL DEFAULT 0,
            status TEXT NOT NULL DEFAULT 'todo',
            created_at TEXT NOT NULL,
            updated_at TEXT NOT NULL
         );
         CREATE TABLE notes (
            id INTEGER PRIMARY KEY AUTOINCREMENT,
            title TEXT NOT NULL,
            content TEXT NOT NULL DEFAULT '',
            created_at TEXT NOT NULL,
            updated_at TEXT NOT NULL
         );",
    )
    .unwrap();
    conn
}

#[test]
fn notes_and_todos_round_trip_mixed_unicode_labels() {
    let conn = records_db();
    let todo_text = "🏷️ #研发／紧急 · ①测试 𠮷";
    let note_title = "📌 灵感 #生活";
    let note_content = "中英混排 Café → ✓ ♫ 😀 𝄞\n第二行\n第三行";
    create_todo(&conn, todo_text, None, 2).unwrap();
    create_note(&conn, note_title, note_content).unwrap();

    let todos = list_todos(&conn, None, None).unwrap();
    let notes = list_notes(&conn).unwrap();
    assert_eq!(todos[0].title, todo_text);
    assert_eq!(notes[0].title, note_title);
    assert_eq!(notes[0].content, note_content);
}

#[test]
fn done_flag_and_board_column_move_together() {
    let conn = records_db();
    let due = Date::from_ymd_opt(2026, 6, 1).unwrap();
    let t = create_todo(&conn, "Pay rent", Some(&due), 1).unwrap();
    assert_eq!(t.status, "todo");
    assert_eq!(t.due_date.as_deref(), Some("2026-06-01"));
    assert!(!t.done);

    let t = set_todo_status(&conn, t.id, "done").unwrap();
    assert!(t.done);
    let t = set_todo_status(&conn, t.id, "doing").unwrap();
    assert!(!t.done);
    assert_eq!(
        set_todo_status(&conn, t.id, "later").unwrap_err(),
        "无效的待办状态：later（应为 todo、doing 或 done）"
    );

    let t = toggle_todo(&conn, t.id).unwrap();
    assert!(t.done);
    assert_eq!(t.status, "done");
    let t = set_todo_done(&conn, t.id, false).unwrap();
    assert_eq!(t.status, "todo");
    assert!(set_todo_important(&conn, t.id, true).unwrap().important);
    assert_eq!(toggle_todo(&conn, 999).unwrap_err(), "待办不存在");
    assert_eq!(status_for_done(true), "done");
    assert_eq!(status_for_done(false), "todo");
}

#[test]
fn todo_lists_filter_by_day_and_done_flag() {
    let conn = records_db();
    let monday = Date::from_ymd_opt(2026, 6, 1).unwrap();
    let tuesday = Date::from_ymd_opt(2026, 6, 2).unwrap();
    let a = create_todo(&conn, "A", Some(&monday), 0).unwrap();
    create_todo(&conn, "B", Some(&tuesday), 5).unwrap();
    create_todo(&conn, "C", None, 9).unwrap();
    set_todo_done(&conn, a.id, true).unwrap();

    let on_monday = list_todos(&conn, Some(&monday), None).unwrap();
    assert_eq!(on_monday.len(), 1);
    assert_eq!(on_monday[0].title, "A");
    let open: Vec<String> = list_todos(&conn, None, Some(false)).unwrap().into_iter().map(|t| t.title).collect();
    assert_eq!(open, vec!["C".to_string(), "B".to_string()]);
    let all: Vec<String> = list_all_todos(&conn).unwrap().into_iter().map(|t| t.title).collect();
    assert_eq!(all, vec!["C".to_string(), "B".to_string(), "A".to_string()]);

    assert_eq!(delete_todo(&conn, a.id).unwrap(), 1);
    assert!(get_todo(&conn, a.id).unwrap().is_none());
}

#[test]
fn notes_update_and_delete() {
    let conn = records_db();
    let n = create_note(&conn, "Draft", "one").unwrap();
    let n = update_note(&conn, n.id, "Final", "two").unwrap();
    assert_eq!((n.title.as_str(), n.content.as_str()), ("Final", "two"));
    assert_eq!(delete_note(&conn, n.id).unwrap(), 1);
    assert!(list_notes(&conn).unwrap().is_empty());
}
