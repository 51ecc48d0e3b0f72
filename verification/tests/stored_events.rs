use rili::date::Date;
use rili::db::list_event_occurrences;
use rili::event_store::{
    apply_default_event_reminder, create_event, default_event_reminder, delete_event_from_occurrence,
    delete_event_occurrence, delete_subscription, get_event, list_all_events, set_event_source_kind,
    NewEvent,
};
use rusqlite::Connection;

fn day(y: i32, m: u32, d: u32) -> Date {
    Date::from_ymd_opt(y, m, d).unwrap()
}

fn subscription_delete_test_db() -> Connection {
    let conn = Connection::open_in_memory().unwrap();
    conn.execute_batch(
        "CREATE TABLE calendars (
            id INTEGER PRIMARY KEY,
            name TEXT NOT NULL,
            color TEXT NOT NULL,
            visible INTEGER NOT NULL DEFAULT 1,
            sort_order INTEGER NOT NULL DEFAULT 0,
            created_at TEXT NOT NULL
         );
         CREATE TABLE events (
            id INTEGER PRIMARY KEY,
            title TEXT NOT NULL,
            date TEXT NOT NULL,
            time TEXT,
            duration_minutes INTEGER NOT NULL DEFAULT 60,
            note TEXT NOT NULL DEFAULT '',
            repeat_rule TEXT NOT NULL DEFAULT 'none',
            reminder_offsets TEXT NOT NULL DEFAULT '',
            category TEXT NOT NULL DEFAULT 'event',
            source_kind TEXT NOT NULL DEFAULT 'local',
            calendar_id INTEGER NOT NULL DEFAULT 1,
            created_at TEXT NOT NULL,
            updated_at TEXT NOT NULL
         );
         CREATE TABLE subscriptions (
            id INTEGER PRIMARY KEY,
            name TEXT NOT NULL,
            url TEXT NOT NULL UNIQUE,
            calendar_id INTEGER NOT NULL,
            enabled INTEGER NOT NULL DEFAULT 1,
            last_sync TEXT,
            last_error TEXT,
            source_type TEXT NOT NULL DEFAULT 'ics',
            username TEXT NOT NULL DEFAULT '',
            secret TEXT NOT NULL DEFAULT '',
            created_at TEXT NOT NULL
         );
         CREATE TABLE event_sources (
            event_id INTEGER PRIMARY KEY,
            subscription_id INTEGER NOT NULL,
            external_uid TEXT NOT NULL
         );
         CREATE TABLE event_exceptions (
            event_id INTEGER NOT NULL,
            occurrence_date TEXT NOT NULL,
            PRIMARY KEY (event_id, occurrence_date)
         );
         CREATE TABLE reminder_log (
            event_id INTEGER NOT NULL,
            occurrence_date TEXT NOT NULL,
            offset_minutes INTEGER NOT NULL,
            notified_at TEXT NOT NULL,
            PRIMARY KEY (event_id, occurrence_date, offset_minutes)
         );",
    )
    .unwrap();
    conn
}

#[test]
fn deleting_subscription_clears_mirrors_and_unused_calendar() {
    let conn = subscription_delete_test_db();
    conn.execute_batch(
        "INSERT INTO calendars VALUES (6, '钉钉会议', '#1677ff', 1, 0, 'now');
         INSERT INTO subscriptions VALUES (2, '钉钉日历', 'https://calendar.dingtalk.com/dav', 6, 1, NULL, NULL, 'caldav', 'user', 'secret', 'now');
         INSERT INTO events VALUES (20, '会议', '2026-10-01', '10:00', 60, '', 'none', '10', 'event', 'subscription', 6, 'now', 'now');
         INSERT INTO event_sources VALUES (20, 2, 'meeting-20');
         INSERT INTO event_exceptions VALUES (20, 'from:2026-10-02');
         INSERT INTO reminder_log VALUES (20, '2026-10-01', 10, 'now');",
    )
    .unwrap();

    let report = delete_subscription(&conn, 2).unwrap();
    assert!(report.deleted_connection);
    assert_eq!(report.deleted_events, 1);
    assert!(report.deleted_calendar);
    assert_eq!(report.calendar_name, "钉钉会议");
    for table in ["subscriptions", "events", "event_sources", "event_exceptions", "reminder_log", "calendars"] {
        let count: i64 = conn
            .query_row(&format!("SELECT COUNT(*) FROM {table}"), [], |row| row.get(0))
            .unwrap();
        assert_eq!(count, 0, "{table} should be empty");
    }
}

#[test]
fn deleting_subscription_preserves_default_calendar_and_local_events() {
    let conn = subscription_delete_test_db();
    conn.execute_batch(
        "INSERT INTO calendars VALUES (1, '默认', '#2e6be6', 1, 0, 'now');
         INSERT INTO subscriptions VALUES (1, 'Outlook', 'https://example.com/a.ics', 1, 1, NULL, NULL, 'ics', '', '', 'now');
         INSERT INTO events VALUES (10, '订阅日程', '2026-09-04', '09:00', 60, '', 'none', '', 'event', 'subscription', 1, 'now', 'now');
         INSERT INTO events VALUES (11, '本地日程', '2026-09-04', '10:00', 60, '', 'none', '', 'event', 'local', 1, 'now', 'now');
         INSERT INTO event_sources VALUES (10, 1, 'outlook-10');",
    )
    .unwrap();

    let report = delete_subscription(&conn, 1).unwrap();
    assert!(report.deleted_connection);
    assert_eq!(report.deleted_events, 1);
    assert!(!report.deleted_calendar);
    assert!(get_event(&conn, 10).unwrap().is_none());
    assert_eq!(get_event(&conn, 11).unwrap().unwrap().title, "本地日程");
    let calendar_count: i64 = conn.query_row("SELECT COUNT(*) FROM calendars", [], |row| row.get(0)).unwrap();
    assert_eq!(calendar_count, 1);
}

#[test]
fn deleting_a_missing_subscription_deletes_nothing() {
    let conn = subscription_delete_test_db();
    let report = delete_subscription(&conn, 99).unwrap();
    assert!(!report.deleted_connection);
    assert_eq!(report.deleted_events, 0);
    assert!(!report.deleted_calendar);
    assert_eq!(report.calendar_name, "");
}

fn reminder_test_db() -> Connection {
    let conn = Connection::open_in_memory().unwrap();
    conn.execute_batch(
        "CREATE TABLE settings (key TEXT PRIMARY KEY, value TEXT NOT NULL);
         CREATE TABLE events (
            id INTEGER PRIMARY KEY AUTOINCREMENT,
            title TEXT NOT NULL,
            date TEXT NOT NULL,
            time TEXT,
            duration_minutes INTEGER NOT NULL DEFAULT 60,
            note TEXT NOT NULL DEFAULT '',
            repeat_rule TEXT NOT NULL DEFAULT 'none',
            reminder_offsets TEXT NOT NULL DEFAULT '',
            category TEXT NOT NULL DEFAULT 'event',
            calendar_id INTEGER NOT NULL DEFAULT 1,
            created_at TEXT NOT NULL,
            updated_at TEXT NOT NULL,
            source_kind TEXT NOT NULL DEFAULT 'local'
         );",
    )
    .unwrap();
    conn
}

#[test]
fn default_reminder_is_validated_and_applied_to_existing_events() {
    let conn = reminder_test_db();
    create_event(
        &conn,
        NewEvent {
            title: "已有日程",
            date: day(2026, 9, 2),
            time: Some("09:00"),
            note: "",
            repeat_rule: "none",
            reminder_offsets: "",
            category: "event",
            calendar_id: 1,
        },
    )
    .unwrap();

    assert_eq!(default_event_reminder(&conn).unwrap(), "10");
    assert_eq!(apply_default_event_reminder(&conn, "60").unwrap(), 1);
    assert_eq!(default_event_reminder(&conn).unwrap(), "60");
    assert_eq!(get_event(&conn, 1).unwrap().unwrap().reminder_offsets, "60");
    assert!(apply_default_event_reminder(&conn, "25").is_err());
}

#[test]
fn occurrence_deletion_targets_one_local_series_only() {
    let conn = Connection::open_in_memory().unwrap();
    conn.execute_batch(
        "CREATE TABLE settings (key TEXT PRIMARY KEY, value TEXT NOT NULL);
         CREATE TABLE events (
            id INTEGER PRIMARY KEY AUTOINCREMENT,
            title TEXT NOT NULL,
            date TEXT NOT NULL,
            time TEXT,
            duration_minutes INTEGER NOT NULL DEFAULT 60,
            note TEXT NOT NULL DEFAULT '',
            repeat_rule TEXT NOT NULL DEFAULT 'none',
            reminder_offsets TEXT NOT NULL DEFAULT '',
            category TEXT NOT NULL DEFAULT 'event',
            calendar_id INTEGER NOT NULL DEFAULT 1,
            created_at TEXT NOT NULL,
            updated_at TEXT NOT NULL,
            source_kind TEXT NOT NULL DEFAULT 'local'
         );
         CREATE TABLE reminder_log (
            event_id INTEGER NOT NULL,
            occurrence_date TEXT NOT NULL,
            offset_minutes INTEGER NOT NULL,
            notified_at TEXT NOT NULL,
            PRIMARY KEY (event_id, occurrence_date, offset_minutes)
         );
         CREATE TABLE event_sources (
            event_id INTEGER PRIMARY KEY,
            subscription_id INTEGER NOT NULL,
            external_uid TEXT NOT NULL
         );
         CREATE TABLE event_exceptions (
            event_id INTEGER NOT NULL,
            occurrence_date TEXT NOT NULL,
            PRIMARY KEY (event_id, occurrence_date)
         );",
    )
    .unwrap();

    let target = day(2026, 9, 3);
    let make = |title: &str, date: Date, repeat_rule: &str| {
        create_event(
            &conn,
            NewEvent {
                title,
                date,
                time: Some("09:00"),
                note: "",
                repeat_rule,
                reminder_offsets: "10",
                category: "event",
                calendar_id: 1,
            },
        )
        .unwrap()
    };
    let local_once = make("本地一次", target, "none");
    let repeating = make("本地重复", target.add_days(-7).unwrap(), "weekly");
    let shared = make("共享", target, "none");
    set_event_source_kind(&conn, shared.id, "shared").unwrap();
    let imported = make("外部文件", target, "none");
    set_event_source_kind(&conn, imported.id, "imported").unwrap();
    let subscribed = make("订阅", target, "none");
    set_event_source_kind(&conn, subscribed.id, "subscription").unwrap();

    assert!(delete_event_occurrence(&conn, shared.id, &target).is_err());
    assert!(get_event(&conn, shared.id).unwrap().is_some());

    assert_eq!(delete_event_occurrence(&conn, repeating.id, &target).unwrap(), 1);
    let target_events = list_event_occurrences(&conn, &target, &target).unwrap();
    assert_eq!(target_events.len(), 4);
    assert!(target_events.iter().any(|item| item.event.id == local_once.id));
    assert!(!target_events.iter().any(|item| item.event.id == repeating.id));
    assert!(get_event(&conn, repeating.id).unwrap().is_some());

    let next = target.add_days(7).unwrap();
    assert_eq!(delete_event_from_occurrence(&conn, repeating.id, &next).unwrap(), 1);
    assert!(list_event_occurrences(&conn, &next, &next)
        .unwrap()
        .iter()
        .all(|item| item.event.id != repeating.id));

    assert_eq!(delete_event_occurrence(&conn, local_once.id, &target).unwrap(), 1);
    let remaining = list_all_events(&conn).unwrap();
    assert_eq!(remaining.len(), 4);
    assert_eq!(
        remaining
            .iter()
            .filter(|event| event.source_kind == "local")
            .map(|event| event.id)
            .collect::<Vec<_>>(),
        vec![repeating.id]
    );
}
