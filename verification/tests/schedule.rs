use rili::date::Date;
use rili::db::generate_shift_assignments;
use rili::schedule_store::{
    create_shift_type, create_subscription, delete_habit, delete_shift_assignment, get_subscription,
    get_subscription_by_url, list_shift_assignments, list_shift_types, list_subscriptions,
};
use rusqlite::Connection;

fn schedule_db() -> Connection {
    let conn = Connection::open_in_memory().unwrap();
    conn.execute_batch(
        "CREATE TABLE shift_types (
            id INTEGER PRIMARY KEY AUTOINCREMENT,
            name TEXT NOT NULL,
            start_time TEXT,
            end_time TEXT,
            color TEXT NOT NULL DEFAULT '#2e6be6',
            is_rest INTEGER NOT NULL DEFAULT 0,
            duration_minutes INTEGER NOT NULL DEFAULT 0,
            created_at TEXT NOT NULL
        );
        CREATE TABLE shift_assignments (
            id INTEGER PRIMARY KEY AUTOINCREMENT,
            shift_type_id INTEGER NOT NULL,
            shift_date TEXT NOT NULL UNIQUE,
            created_at TEXT NOT NULL
        );
        CREATE TABLE habits (
            id INTEGER PRIMARY KEY AUTOINCREMENT,
            title TEXT NOT NULL,
            archived INTEGER NOT NULL DEFAULT 0,
            created_at TEXT NOT NULL
        );
        CREATE TABLE habit_logs (
            habit_id INTEGER NOT NULL,
            log_date TEXT NOT NULL,
            PRIMARY KEY (habit_id, log_date)
        );
        CREATE TABLE subscriptions (
            id INTEGER PRIMARY KEY AUTOINCREMENT,
            name TEXT NOT NULL,
            url TEXT NOT NULL UNIQUE,
            calendar_id INTEGER NOT NULL DEFAULT 1,
            enabled INTEGER NOT NULL DEFAULT 1,
            last_sync TEXT,
            last_error TEXT,
            source_type TEXT NOT NULL DEFAULT 'ics',
            username TEXT NOT NULL DEFAULT '',
            secret TEXT NOT NULL DEFAULT '',
            created_at TEXT NOT NULL
        );",
    )
    .unwrap();
    conn
}

#[test]
fn shift_types_are_trimmed_and_listed_with_their_shifts() {
    let conn = schedule_db();
    assert_eq!(create_shift_type(&conn, "   ", None, None, "#000000", false, 60).unwrap_err(), "班次名称不能为空");
    let day = create_shift_type(&conn, "  白班 ", Some("08:00"), Some("20:00"), "#2e6be6", false, 720).unwrap();
    assert_eq!(day.name, "白班");
    let rest = create_shift_type(&conn, "休息", None, None, "#6b7280", true, -30).unwrap();
    assert_eq!(rest.duration_minutes, 0);
    assert!(rest.is_rest);
    assert_eq!(list_shift_types(&conn).unwrap().len(), 2);

    let start = Date::from_ymd_opt(2026, 9, 1).unwrap();
    let end = Date::from_ymd_opt(2026, 9, 3).unwrap();
    assert_eq!(generate_shift_assignments(&conn, &start, &end, &vec![day.id, rest.id]).unwrap(), 3);
    let shifts = list_shift_assignments(&conn, &start, &end).unwrap();
    let names: Vec<(&str, &str)> = shifts.iter().map(|s| (s.shift_date.as_str(), s.shift_name.as_str())).collect();
    assert_eq!(names, vec![("2026-09-01", "白班"), ("2026-09-02", "休息"), ("2026-09-03", "白班")]);
    assert_eq!(delete_shift_assignment(&conn, shifts[1].id).unwrap(), 1);
    assert_eq!(list_shift_assignments(&conn, &start, &end).unwrap().len(), 2);
}

#[test]
fn subscriptions_are_checked_and_not_added_twice() {
    let conn = schedule_db();
    assert_eq!(
        create_subscription(&conn, "Team", "ftp://example.com/a.ics", 1).unwrap_err(),
        "订阅地址必须是 http:// 或 https:// URL"
    );
    assert_eq!(create_subscription(&conn, "  ", "https://example.com/a.ics", 1).unwrap_err(), "订阅名称不能为空");
    let s = create_subscription(&conn, " Team ", " https://example.com/a.ics ", 4).unwrap();
    assert_eq!(s.name, "Team");
    assert_eq!(s.url, "https://example.com/a.ics");
    assert!(s.enabled);
    let again = create_subscription(&conn, "Other", "https://example.com/a.ics", 5).unwrap();
    assert_eq!(again.id, s.id);
    assert_eq!(list_subscriptions(&conn).unwrap().len(), 1);
    assert_eq!(get_subscription(&conn, s.id).unwrap().unwrap().calendar_id, 4);
    assert!(get_subscription_by_url(&conn, "https://example.com/b.ics").unwrap().is_none());
}

#[test]
fn deleting_a_habit_removes_its_check_offs() {
    let conn = schedule_db();
    conn.execute_batch(
        "INSERT INTO habits (title, created_at) VALUES ('Water', 'x');
         INSERT INTO habit_logs VALUES (1, '2026-09-01');
         INSERT INTO habit_logs VALUES (1, '2026-09-02');",
    )
    .unwrap();
    assert_eq!(delete_habit(&conn, 1).unwrap(), 1);
    let logs: i64 = conn.query_row("SELECT COUNT(*) FROM habit_logs", [], |r| r.get(0)).unwrap();
    assert_eq!(logs, 0);
}
