use rili::backup::{import_backup, BackupEventException, BackupHabit, BackupHabitLog, CourseJsonSchema, LocalBackup};
use rili::date::Date;
use rili::db::{
    create_habit, generate_shift_assignments, list_habits, search, shift_plan, streak_from_days,
    toggle_habit_log, Calendar, Event, Note, Todo,
};
use rusqlite::Connection;

fn day(y: i32, m: u32, d: u32) -> Date {
    Date::from_ymd_opt(y, m, d).unwrap()
}

fn full_db() -> Connection {
    let conn = Connection::open_in_memory().unwrap();
    conn.execute_batch(
        "CREATE TABLE events (id INTEGER PRIMARY KEY AUTOINCREMENT, title TEXT NOT NULL, date TEXT NOT NULL,
            time TEXT, duration_minutes INTEGER NOT NULL DEFAULT 60, note TEXT NOT NULL DEFAULT '',
            repeat_rule TEXT NOT NULL DEFAULT 'none', reminder_offsets TEXT NOT NULL DEFAULT '',
            category TEXT NOT NULL DEFAULT 'event', calendar_id INTEGER NOT NULL DEFAULT 1,
            source_kind TEXT NOT NULL DEFAULT 'local', created_at TEXT NOT NULL, updated_at TEXT NOT NULL);
         CREATE TABLE todos (id INTEGER PRIMARY KEY AUTOINCREMENT, title TEXT NOT NULL, done INTEGER NOT NULL DEFAULT 0,
            due_date TEXT, priority INTEGER NOT NULL DEFAULT 0, important INTEGER NOT NULL DEFAULT 0,
            status TEXT NOT NULL DEFAULT 'todo', created_at TEXT NOT NULL, updated_at TEXT NOT NULL);
         CREATE TABLE notes (id INTEGER PRIMARY KEY AUTOINCREMENT, title TEXT NOT NULL, content TEXT NOT NULL DEFAULT '',
            created_at TEXT NOT NULL, updated_at TEXT NOT NULL);
         CREATE TABLE habits (id INTEGER PRIMARY KEY AUTOINCREMENT, title TEXT NOT NULL,
            archived INTEGER NOT NULL DEFAULT 0, created_at TEXT NOT NULL);
         CREATE TABLE habit_logs (habit_id INTEGER NOT NULL, log_date TEXT NOT NULL, PRIMARY KEY (habit_id, log_date));
         CREATE TABLE calendars (id INTEGER PRIMARY KEY AUTOINCREMENT, name TEXT NOT NULL, color TEXT NOT NULL,
            visible INTEGER NOT NULL DEFAULT 1, sort_order INTEGER NOT NULL DEFAULT 0, created_at TEXT NOT NULL);
         CREATE TABLE event_exceptions (event_id INTEGER NOT NULL, occurrence_date TEXT NOT NULL,
            PRIMARY KEY (event_id, occurrence_date));
         CREATE TABLE shift_types (id INTEGER PRIMARY KEY AUTOINCREMENT, name TEXT NOT NULL, start_time TEXT,
            end_time TEXT, color TEXT NOT NULL DEFAULT '#2e6be6', is_rest INTEGER NOT NULL DEFAULT 0,
            duration_minutes INTEGER NOT NULL DEFAULT 0, created_at TEXT NOT NULL);
         CREATE TABLE shift_assignments (id INTEGER PRIMARY KEY AUTOINCREMENT, shift_type_id INTEGER NOT NULL,
            shift_date TEXT NOT NULL UNIQUE, created_at TEXT NOT NULL);
         CREATE TABLE courses (id INTEGER PRIMARY KEY AUTOINCREMENT, title TEXT NOT NULL, teacher TEXT NOT NULL DEFAULT '',
            location TEXT NOT NULL DEFAULT '', weekday INTEGER NOT NULL, start_period INTEGER NOT NULL,
            period_count INTEGER NOT NULL DEFAULT 2, start_week INTEGER NOT NULL DEFAULT 1,
            end_week INTEGER NOT NULL DEFAULT 18, color_index INTEGER NOT NULL DEFAULT 0,
            created_at TEXT NOT NULL, updated_at TEXT NOT NULL);
         INSERT INTO calendars (name, color, created_at) VALUES ('默认', '#2e6be6', 'x');",
    )
    .unwrap();
    conn
}

#[test]
fn roster_repeats_the_sequence() {
    let plan = shift_plan(&day(2026, 2, 27), &day(2026, 3, 3), &vec![7, 8]);
    let expected: Vec<(i64, String)> = vec![
        (7, "2026-02-27".to_string()),
        (8, "2026-02-28".to_string()),
        (7, "2026-03-01".to_string()),
        (8, "2026-03-02".to_string()),
        (7, "2026-03-03".to_string()),
    ];
    assert_eq!(plan, expected);
}

#[test]
fn roster_generation_checks_its_inputs() {
    let conn = full_db();
    conn.execute("INSERT INTO shift_types (name, created_at) VALUES ('早班', 'x')", []).unwrap();
    assert_eq!(
        generate_shift_assignments(&conn, &day(2026, 3, 2), &day(2026, 3, 1), &vec![1]).unwrap_err(),
        "排班结束日期不能早于开始日期"
    );
    assert_eq!(
        generate_shift_assignments(&conn, &day(2026, 3, 1), &day(2026, 3, 2), &vec![]).unwrap_err(),
        "排班序列不能为空"
    );
    assert_eq!(
        generate_shift_assignments(&conn, &day(2026, 3, 1), &day(2026, 3, 2), &vec![1, 9]).unwrap_err(),
        "不存在的班次 ID：9"
    );
    assert_eq!(generate_shift_assignments(&conn, &day(2026, 3, 1), &day(2026, 3, 7), &vec![1]).unwrap(), 7);
    assert_eq!(generate_shift_assignments(&conn, &day(2026, 3, 5), &day(2026, 3, 9), &vec![1]).unwrap(), 5);
    let stored: i64 = conn.query_row("SELECT COUNT(*) FROM shift_assignments", [], |r| r.get(0)).unwrap();
    assert_eq!(stored, 9);
}

#[test]
fn streak_counts_back_from_today_or_yesterday() {
    let logs: Vec<String> = ["2026-09-08", "2026-09-09", "2026-09-10", "2026-09-05"]
        .iter()
        .map(|s| s.to_string())
        .collect();
    assert_eq!(streak_from_days(&logs, &day(2026, 9, 10)), Ok((3, true)));
    assert_eq!(streak_from_days(&logs, &day(2026, 9, 11)), Ok((3, false)));
    assert_eq!(streak_from_days(&logs, &day(2026, 9, 12)), Ok((0, false)));
    assert_eq!(streak_from_days(&logs, &day(2026, 9, 6)), Ok((1, false)));
}

#[test]
fn habits_toggle_and_report_streaks() {
    let conn = full_db();
    let habit = create_habit(&conn, "跑步").unwrap();
    assert_eq!(habit.title, "跑步");
    assert_eq!(habit.streak, 0);
    let today = {
        let listed = list_habits(&conn, false).unwrap();
        assert_eq!(listed.len(), 1);
        assert!(!listed[0].done_today);
        listed[0].streak
    };
    assert_eq!(today, 0);
    conn.execute("UPDATE habits SET archived = 1", []).unwrap();
    assert!(list_habits(&conn, false).unwrap().is_empty());
    assert_eq!(list_habits(&conn, true).unwrap().len(), 1);
    // checking a long-past day off and back leaves today's streak alone
    assert_eq!(toggle_habit_log(&conn, habit.id, &day(2001, 1, 1)).unwrap(), 0);
    assert_eq!(toggle_habit_log(&conn, habit.id, &day(2001, 1, 1)).unwrap(), 0);
    let logs: i64 = conn.query_row("SELECT COUNT(*) FROM habit_logs", [], |r| r.get(0)).unwrap();
    assert_eq!(logs, 0);
}

#[test]
fn search_finds_every_kind_and_formats_details() {
    let conn = full_db();
    conn.execute_batch(
        "INSERT INTO events (title, date, time, category, created_at, updated_at) VALUES ('项目周会', '2026-09-07', '09:30', 'event', 'x', 'x');
         INSERT INTO events (title, date, category, created_at, updated_at) VALUES ('妈妈生日', '2026-10-01', 'birthday', 'x', 'x');
         INSERT INTO todos (title, due_date, status, created_at, updated_at) VALUES ('准备周会材料', '2026-09-06', 'doing', 'x', 'x');
         INSERT INTO notes (title, content, created_at, updated_at) VALUES ('周会纪要', '讨论进度', '2026-09-07 10:00:00', 'y');
         INSERT INTO courses (title, teacher, location, weekday, start_period, start_week, end_week, created_at, updated_at)
             VALUES ('周会课', '陈老师', '', 3, 5, 1, 16, 'x', 'x');",
    )
    .unwrap();
    assert!(search(&conn, "   ", 10).unwrap().is_empty());
    let hits = search(&conn, " 周会 ", 10).unwrap();
    let seen: Vec<(String, String, String, String)> =
        hits.iter().map(|h| (h.kind.clone(), h.title.clone(), h.meta.clone(), h.date.clone())).collect();
    assert_eq!(
        seen,
        vec![
            ("日程".to_string(), "项目周会".to_string(), "2026-09-07 09:30".to_string(), "2026-09-07".to_string()),
            ("待办".to_string(), "准备周会材料".to_string(), "进行中 · 2026-09-06".to_string(), "2026-09-06".to_string()),
            ("便签".to_string(), "周会纪要".to_string(), "讨论进度".to_string(), "2026-09-07".to_string()),
            ("课程".to_string(), "周会课".to_string(), "周3 第5节 · 第1–16周 · 陈老师".to_string(), String::new()),
        ]
    );
    assert_eq!(search(&conn, "周会", 2).unwrap().len(), 2);
    let birthday = search(&conn, "生日", 10).unwrap();
    assert_eq!(birthday[0].kind, "生日");
    assert_eq!(birthday[0].meta, "2026-10-01");
}

#[test]
fn search_matches_notes_of_events_and_ignores_ascii_case() {
    let conn = full_db();
    conn.execute_batch(
        "INSERT INTO events (title, date, note, category, created_at, updated_at) VALUES ('评审', '2026-09-08', '带上 Demo 机', 'event', 'x', 'x');
         INSERT INTO todos (title, status, created_at, updated_at) VALUES ('整理发票', 'todo', 'x', 'x');",
    )
    .unwrap();
    let hits = search(&conn, "demo", 10).unwrap();
    assert_eq!(hits.len(), 1);
    assert_eq!(hits[0].title, "评审");
    assert!(search(&conn, "演示", 10).unwrap().is_empty());
}

fn sample_backup() -> LocalBackup {
    LocalBackup {
        format_version: 1,
        exported_at: "2026-09-01 08:00:00".to_string(),
        calendars: vec![
            Calendar { id: 1, name: "默认".to_string(), color: "#2e6be6".to_string(), visible: true, sort_order: 0, created_at: "x".to_string() },
            Calendar { id: 5, name: "旅行".to_string(), color: "#0e9f6e".to_string(), visible: true, sort_order: 1, created_at: "x".to_string() },
        ],
        events: vec![Event {
            id: 40,
            title: "出发".to_string(),
            date: "2026-10-01".to_string(),
            time: Some("08:00".to_string()),
            duration_minutes: 60,
            note: String::new(),
            repeat_rule: "daily".to_string(),
            reminder_offsets: String::new(),
            category: "event".to_string(),
            calendar_id: 5,
            created_at: "x".to_string(),
            updated_at: "x".to_string(),
            source_kind: "local".to_string(),
        }],
        event_exceptions: vec![BackupEventException { event_id: 40, occurrence_date: "from:2026-10-05".to_string() }],
        todos: vec![Todo {
            id: 3,
            title: "订票".to_string(),
            done: false,
            due_date: None,
            priority: 0,
            important: true,
            status: "later".to_string(),
            created_at: "x".to_string(),
            updated_at: "x".to_string(),
        }],
        notes: vec![Note { id: 2, title: "清单".to_string(), content: "护照".to_string(), created_at: "x".to_string(), updated_at: "x".to_string() }],
        course_schema: CourseJsonSchema::default(),
        courses: vec![],
        habits: vec![BackupHabit { id: 9, title: "读书".to_string(), archived: false, created_at: "x".to_string() }],
        habit_logs: vec![
            BackupHabitLog { habit_id: 9, log_date: "2026-09-01".to_string() },
            BackupHabitLog { habit_id: 77, log_date: "2026-09-01".to_string() },
        ],
    }
}

#[test]
fn backup_import_appends_and_remaps() {
    let mut conn = full_db();
    let stats = import_backup(&mut conn, &sample_backup()).unwrap();
    assert_eq!(stats.calendars, 1);
    assert_eq!(stats.events, 1);
    assert_eq!(stats.todos, 1);
    assert_eq!(stats.notes, 1);
    assert_eq!(stats.courses, 0);
    assert_eq!(stats.habits, 1);
    assert_eq!(stats.habit_logs, 1);
    let (calendar_id, status): (i64, String) = conn
        .query_row("SELECT e.calendar_id, t.status FROM events e, todos t", [], |r| Ok((r.get(0)?, r.get(1)?)))
        .unwrap();
    assert_eq!(calendar_id, 2);
    assert_eq!(status, "todo");
    let exception: String = conn.query_row("SELECT occurrence_date FROM event_exceptions", [], |r| r.get(0)).unwrap();
    assert_eq!(exception, "from:2026-10-05");
}

#[test]
fn backup_import_refuses_bad_versions_and_exceptions() {
    let mut conn = full_db();
    let mut newer = sample_backup();
    newer.format_version = 2;
    assert_eq!(import_backup(&mut conn, &newer).unwrap_err(), "不支持的备份版本：2");
    let mut orphan = sample_backup();
    orphan.event_exceptions[0].event_id = 41;
    assert_eq!(import_backup(&mut conn, &orphan).unwrap_err(), "备份日程例外引用了不存在的日程");
    let mut bad_day = sample_backup();
    bad_day.event_exceptions[0].occurrence_date = "2026-13-01".to_string();
    assert_eq!(import_backup(&mut conn, &bad_day).unwrap_err(), "备份日程例外日期无效");
    let events: i64 = conn.query_row("SELECT COUNT(*) FROM events", [], |r| r.get(0)).unwrap();
    assert_eq!(events, 0);
}

#[test]
fn course_schema_describes_the_course_table() {
    let schema = CourseJsonSchema::default();
    assert_eq!(schema.schema_id, "timehub.course/v1");
    assert_eq!(schema.version, 1);
    assert_eq!(schema.weekday_values.len(), 7);
    assert_eq!(schema.period_range, [1, 12]);
    assert_eq!(schema.week_range, [1, 30]);
    assert_eq!(schema.color_palette.len(), 8);
    assert!(schema.fields.iter().any(|f| f.name == "weekday" && f.required));
}

#[test]
fn course_json_schema_is_self_describing_and_old_backups_still_parse() {
    let schema = CourseJsonSchema::default();
    assert_eq!(schema.schema_id, "timehub.course/v1");
    assert_eq!(schema.weekday_values.len(), 7);
    assert!(schema.fields.iter().any(|field| field.name == "weekday"));
    assert!(schema.fields.iter().any(|field| field.name == "period_count"));
}
