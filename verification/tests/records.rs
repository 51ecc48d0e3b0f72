use rili::date::Date;
use rili::db::{
    calendar_left_unused, category_label, check_default_reminder, check_subscription_input,
    default_event_source_kind, delete_course, expand_occurrences, list_event_occurrences, get_course, import_todo_state,
    list_courses, normalize_caldav_server_url, normalize_default_reminder, repeat_until_marker,
    reminder_mode_supported, save_course, status_label, todo_status_done, Event,
};
use rusqlite::Connection;

fn day(y: i32, m: u32, d: u32) -> Date {
    Date::from_ymd_opt(y, m, d).unwrap()
}

fn course_test_db() -> Connection {
    let conn = Connection::open_in_memory().unwrap();
    conn.execute_batch(
        "CREATE TABLE courses (
            id INTEGER PRIMARY KEY AUTOINCREMENT,
            title TEXT NOT NULL,
            teacher TEXT NOT NULL DEFAULT '',
            location TEXT NOT NULL DEFAULT '',
            weekday INTEGER NOT NULL,
            start_period INTEGER NOT NULL,
            period_count INTEGER NOT NULL DEFAULT 2,
            start_week INTEGER NOT NULL DEFAULT 1,
            end_week INTEGER NOT NULL DEFAULT 18,
            color_index INTEGER NOT NULL DEFAULT 0,
            created_at TEXT NOT NULL,
            updated_at TEXT NOT NULL
        );",
    )
    .unwrap();
    conn
}

fn event(id: i64, date: &str, time: Option<&str>, rule: &str) -> Event {
    Event {
        id,
        title: format!("事项{id}"),
        date: date.to_string(),
        time: time.map(|t| t.to_string()),
        duration_minutes: 60,
        note: String::new(),
        repeat_rule: rule.to_string(),
        reminder_offsets: String::new(),
        category: "event".to_string(),
        calendar_id: 1,
        created_at: "2026-01-01 00:00:00".to_string(),
        updated_at: "2026-01-01 00:00:00".to_string(),
        source_kind: "local".to_string(),
    }
}

#[test]
fn course_conflicts_require_week_and_period_overlap() {
    let conn = course_test_db();
    let first = save_course(&conn, 0, "高等数学", "陈老师", "A101", 1, 1, 2, 1, 16, 0).unwrap();

    let conflict =
        save_course(&conn, 0, "大学英语", "李老师", "B202", 1, 2, 2, 1, 16, 1).unwrap_err();
    assert!(conflict.to_string().contains("高等数学"));

    save_course(&conn, 0, "大学英语", "李老师", "B202", 1, 2, 2, 17, 18, 1).unwrap();
    save_course(
        &conn,
        first.id,
        "高等数学",
        "陈老师",
        "A102",
        1,
        1,
        2,
        1,
        16,
        2,
    )
    .unwrap();
    assert_eq!(list_courses(&conn).unwrap().len(), 2);
}

#[test]
fn caldav_server_accepts_dingtalk_domain_without_scheme() {
    assert_eq!(
        normalize_caldav_server_url(" calendar.dingtalk.com ").unwrap(),
        "https://calendar.dingtalk.com/dav"
    );
    assert_eq!(
        normalize_caldav_server_url("https://calendar.dingtalk.com/").unwrap(),
        "https://calendar.dingtalk.com/dav"
    );
    assert_eq!(
        normalize_caldav_server_url("calendar.dingtalk.com/dav").unwrap(),
        "https://calendar.dingtalk.com/dav"
    );
    assert!(normalize_caldav_server_url("http://calendar.dingtalk.com")
        .unwrap_err()
        .to_string()
        .contains("HTTPS"));
}

#[test]
fn caldav_servers_other_than_dingtalk_keep_their_path() {
    assert_eq!(
        normalize_caldav_server_url("https://dav.example.com/cal/").unwrap(),
        "https://dav.example.com/cal"
    );
    assert!(normalize_caldav_server_url("   ").is_err());
}

#[test]
fn course_fields_are_checked_before_storage() {
    let conn = course_test_db();
    assert_eq!(
        save_course(&conn, 0, "  ", "", "", 1, 1, 2, 1, 16, 0).unwrap_err(),
        "请填写课程名称"
    );
    assert_eq!(
        save_course(&conn, 0, "物理", "", "", 8, 1, 2, 1, 16, 0).unwrap_err(),
        "星期设置无效"
    );
    assert_eq!(
        save_course(&conn, 0, "物理", "", "", 1, 13, 1, 1, 16, 0).unwrap_err(),
        "开始节次应为 1–12"
    );
    assert_eq!(
        save_course(&conn, 0, "物理", "", "", 1, 1, 7, 1, 16, 0).unwrap_err(),
        "连续节数应为 1–6"
    );
    let saved = save_course(&conn, 0, "  物理  ", " 王老师 ", " C3 ", 3, 5, 2, 1, 8, 11).unwrap();
    assert_eq!(saved.title, "物理");
    assert_eq!(saved.teacher, "王老师");
    assert_eq!(saved.location, "C3");
    let fetched = get_course(&conn, saved.id).unwrap().unwrap();
    assert_eq!(fetched.title, "物理");
    assert_eq!(delete_course(&conn, saved.id).unwrap(), 1);
    assert!(get_course(&conn, saved.id).unwrap().is_none());
}

#[test]
fn occurrences_skip_exceptions_and_sort_by_day_then_time() {
    let events = vec![
        event(1, "2026-09-01", Some("09:00"), "daily"),
        event(2, "2026-09-03", Some("08:00"), "none"),
        event(3, "2026-09-03", None, "none"),
    ];
    let exceptions = vec![(1, "2026-09-02".to_string()), (1, "from:2026-09-04".to_string())];
    let out = expand_occurrences(&events, &exceptions, &day(2026, 9, 1), &day(2026, 9, 5));
    let seen: Vec<(i64, String)> = out
        .iter()
        .map(|o| (o.event.id, o.occurrence_date.clone()))
        .collect();
    assert_eq!(
        seen,
        vec![
            (1, "2026-09-01".to_string()),
            (3, "2026-09-03".to_string()),
            (2, "2026-09-03".to_string()),
            (1, "2026-09-03".to_string()),
        ]
    );
}

#[test]
fn labels_and_default_reminders() {
    assert_eq!(category_label("birthday"), "生日");
    assert_eq!(category_label("anniversary"), "纪念日");
    assert_eq!(category_label("countdown"), "倒数日");
    assert_eq!(category_label("other"), "日程");
    assert_eq!(status_label("doing"), "进行中");
    assert_eq!(status_label("done"), "已完成");
    assert_eq!(status_label("x"), "待办");
    assert_eq!(default_event_source_kind(), "local");
    assert!(reminder_mode_supported("1440"));
    assert!(!reminder_mode_supported("5"));
    assert_eq!(normalize_default_reminder("5"), "10");
    assert_eq!(normalize_default_reminder(""), "");
    assert_eq!(normalize_default_reminder("none"), "10");
    assert!(check_default_reminder("60").is_ok());
    assert_eq!(check_default_reminder("7").unwrap_err(), "不支持的默认提醒模式");
}

#[test]
fn todo_states_and_subscriptions() {
    assert_eq!(todo_status_done("done"), Ok(true));
    assert_eq!(todo_status_done("doing"), Ok(false));
    assert!(todo_status_done("later").is_err());
    assert_eq!(import_todo_state("later", false), (false, "todo".to_string()));
    assert_eq!(import_todo_state("doing", true), (true, "done".to_string()));
    assert_eq!(import_todo_state("doing", false), (false, "doing".to_string()));
    assert_eq!(
        check_subscription_input("工作", "  https://example.com/a.ics "),
        Ok("https://example.com/a.ics".to_string())
    );
    assert_eq!(
        check_subscription_input("工作", "ftp://example.com"),
        Err("订阅地址必须是 http:// 或 https:// URL".to_string())
    );
    assert_eq!(
        check_subscription_input(" ", "http://example.com"),
        Err("订阅名称不能为空".to_string())
    );
    assert!(calendar_left_unused(5, "钉钉会议", 0, 0));
    assert!(!calendar_left_unused(1, "钉钉会议", 0, 0));
    assert!(!calendar_left_unused(5, "工作", 0, 0));
    assert!(!calendar_left_unused(5, "钉钉会议", 0, 2));
    assert_eq!(
        repeat_until_marker(&day(2025, 9, 4)).as_deref(),
        Some("from:2025-09-05")
    );
}

fn occurrence_test_db() -> Connection {
    let conn = Connection::open_in_memory().unwrap();
    conn.execute_batch(
        "CREATE TABLE events (
            id INTEGER PRIMARY KEY AUTOINCREMENT,
            title TEXT NOT NULL,
            date TEXT NOT NULL,
            time TEXT,
            duration_minutes INTEGER NOT NULL DEFAULT 60,
            note TEXT NOT NULL DEFAULT '',
            repeat_rule TEXT NOT NULL DEFAULT 'none',
            reminder_offsets TEXT NOT NULL DEFAULT '',
            category TEXT NOT NULL DEFAULT 'event',
            source_kind TEXT NOT NULL DEFAULT 'local',
            calendar_id INTEGER NOT NULL DEFAULT 1,
            created_at TEXT NOT NULL,
            updated_at TEXT NOT NULL
        );
        CREATE TABLE event_exceptions (
            event_id INTEGER NOT NULL,
            occurrence_date TEXT NOT NULL,
            PRIMARY KEY (event_id, occurrence_date)
        );
        INSERT INTO events (title, date, time, repeat_rule, created_at, updated_at)
            VALUES ('standup', '2026-05-01', '09:00', 'daily', 'x', 'x');
        INSERT INTO events (title, date, time, repeat_rule, created_at, updated_at)
            VALUES ('lunch', '2026-05-03', NULL, 'none', 'x', 'x');
        INSERT INTO events (title, date, time, repeat_rule, created_at, updated_at)
            VALUES ('outside', '2026-06-03', '10:00', 'none', 'x', 'x');
        INSERT INTO event_exceptions VALUES (1, '2026-05-02');
        INSERT INTO event_exceptions VALUES (1, 'from:2026-05-05');",
    )
    .unwrap();
    conn
}

#[test]
fn stored_occurrences_honour_exceptions_and_order() {
    let conn = occurrence_test_db();
    let occs = list_event_occurrences(&conn, &day(2026, 5, 1), &day(2026, 5, 7)).unwrap();
    let got: Vec<(String, String)> = occs
        .iter()
        .map(|o| (o.occurrence_date.clone(), o.event.title.clone()))
        .collect();
    assert_eq!(
        got,
        vec![
            ("2026-05-01".to_string(), "standup".to_string()),
            ("2026-05-03".to_string(), "lunch".to_string()),
            ("2026-05-03".to_string(), "standup".to_string()),
            ("2026-05-04".to_string(), "standup".to_string()),
        ]
    );
}
