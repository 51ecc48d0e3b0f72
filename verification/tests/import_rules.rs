use rili::backup::{check_exceptions, event_calendar_ids, smallest_id, BackupEventException};
use rili::dashboard::{connections_summary, subscription_status};
use rili::date::{Date, DateTime};
use rili::db::{Calendar, Event, Subscription};
use rili::event_store::{newly_recorded, occurrence_check, occurrence_deletion, OccurrenceDeletion};
use rili::ics::{durations_readable, export_ics_at, parse_ics, ExportEvent};
use rili::integrations::{enabled_subscriptions, set_subscription_result};
use rili::natural::relative_fits;
use rili::recurrence::RepeatRule;
use rili::schedule_store::{check_caldav_account, create_or_update_caldav_subscription, create_subscription, get_subscription};

fn calendar(id: i64, name: &str) -> Calendar {
    Calendar {
        id,
        name: name.to_string(),
        color: "#2f6fed".to_string(),
        visible: true,
        sort_order: 0,
        created_at: "2026-01-01 00:00:00".to_string(),
    }
}

fn event(id: i64, calendar_id: i64, date: &str, repeat_rule: &str, source_kind: &str) -> Event {
    Event {
        id,
        title: "周会".to_string(),
        date: date.to_string(),
        time: Some("09:00".to_string()),
        duration_minutes: 60,
        note: String::new(),
        repeat_rule: repeat_rule.to_string(),
        reminder_offsets: String::new(),
        category: "event".to_string(),
        calendar_id,
        created_at: "2026-01-01 00:00:00".to_string(),
        updated_at: "2026-01-01 00:00:00".to_string(),
        source_kind: source_kind.to_string(),
    }
}

fn exception(event_id: i64, occurrence_date: &str) -> BackupEventException {
    BackupEventException { event_id, occurrence_date: occurrence_date.to_string() }
}

#[test]
fn imported_events_follow_the_last_calendar_with_their_id() {
    let calendars = vec![calendar(5, "工作"), calendar(7, "家庭"), calendar(5, "工作2")];
    let ids = vec![40, 41, 42];
    let events = vec![event(1, 5, "2026-09-01", "none", "local"), event(2, 7, "2026-09-01", "none", "local"), event(3, 9, "2026-09-01", "none", "local")];
    assert_eq!(event_calendar_ids(&calendars, &ids, &events), vec![42, 41, 1]);
    assert_eq!(event_calendar_ids(&Vec::new(), &Vec::new(), &events), vec![1, 1, 1]);
}

#[test]
fn backup_exceptions_are_checked_in_order() {
    let events = vec![event(1, 1, "2026-09-01", "weekly", "local")];
    assert_eq!(check_exceptions(&events, &vec![exception(1, "2026-09-08"), exception(1, "from:2026-09-15")]), Ok(()));
    assert_eq!(
        check_exceptions(&events, &vec![exception(2, "2026-09-08")]),
        Err("备份日程例外引用了不存在的日程".to_string())
    );
    assert_eq!(
        check_exceptions(&events, &vec![exception(1, "from:2026-13-01"), exception(2, "2026-09-08")]),
        Err("备份日程例外日期无效".to_string())
    );
}

#[test]
fn deleting_at_an_occurrence_depends_on_the_rule() {
    let day = Date { year: 2026, month: 9, day: 3 };
    assert!(matches!(occurrence_deletion(&event(1, 1, "2026-09-03", "none", "local"), &day, true), OccurrenceDeletion::WholeEvent));
    match occurrence_deletion(&event(1, 1, "2026-09-03", "daily", "local"), &day, false) {
        OccurrenceDeletion::SkipDay { day } => assert_eq!(day, "2026-09-03"),
        _ => panic!("expected a skipped day"),
    }
    match occurrence_deletion(&event(1, 1, "2026-09-01", "daily", "local"), &day, true) {
        OccurrenceDeletion::CutFrom { day, marker } => {
            assert_eq!(day, "2026-09-03");
            assert_eq!(marker, "from:2026-09-03");
        },
        _ => panic!("expected a cut series"),
    }
}

#[test]
fn occurrence_checks_name_each_refusal() {
    let day = Date { year: 2026, month: 9, day: 3 };
    assert_eq!(occurrence_check(None, &day).unwrap_err(), "日程不存在");
    assert_eq!(occurrence_check(Some(event(1, 1, "2026-09-03", "none", "subscription")), &day).unwrap_err(), "共享或外部日程不能在本地删除");
    assert_eq!(occurrence_check(Some(event(1, 1, "九月三日", "none", "local")), &day).unwrap_err(), "日程日期无效");
    assert_eq!(occurrence_check(Some(event(1, 1, "2026-09-02", "none", "local")), &day).unwrap_err(), "所选日期不是该日程的发生日期");
    assert_eq!(occurrence_check(Some(event(1, 1, "2026-09-01", "daily", "local")), &day).unwrap().id, 1);
}

#[test]
fn a_reminder_counts_as_new_only_when_a_row_was_added() {
    assert!(!newly_recorded(0));
    assert!(newly_recorded(1));
}

#[test]
fn exported_events_read_back_whatever_the_calendar_name() {
    let weekly = RepeatRule::WeeklyOn(vec![0, 4]);
    let nth = RepeatRule::MonthlyNth(2, 3);
    let none = RepeatRule::NoRepeat;
    let events = [
        ExportEvent {
            uid: "a@rili".to_string(),
            title: "站会; 第一周, 周一",
            date: Date { year: 2026, month: 9, day: 7 },
            time: Some("08:05"),
            note: "带上\n笔记本",
            repeat_rule: &weekly,
        },
        ExportEvent {
            uid: "b@rili".to_string(),
            title: "读书会",
            date: Date { year: 2026, month: 9, day: 10 },
            time: None,
            note: "",
            repeat_rule: &nth,
        },
        ExportEvent {
            uid: "c@rili".to_string(),
            title: "已取消: 聚餐",
            date: Date { year: 2027, month: 1, day: 1 },
            time: Some("19:00"),
            note: "",
            repeat_rule: &none,
        },
    ];
    let stamp = DateTime { date: Date { year: 2026, month: 8, day: 31 }, hour: 23, minute: 59, second: 59 };
    let text = export_ics_at("家\r\n庭", &events, &stamp);
    let back = parse_ics(&text).unwrap();
    assert_eq!(back.len(), 3);
    for (b, e) in back.iter().zip(events.iter()) {
        assert_eq!(b.uid, e.uid);
        assert_eq!(b.title, e.title);
        assert_eq!(b.date, e.date);
        assert_eq!(b.time.as_deref(), e.time);
        assert_eq!(b.note, e.note);
        assert_eq!(&b.repeat_rule, e.repeat_rule);
        assert_eq!(b.repeat_until, None);
        assert_eq!(b.duration_minutes, 60);
    }
    assert!(back[2].cancelled);
    assert!(!back[0].cancelled);
}

#[test]
fn subscription_rows_show_their_sync_state() {
    assert_eq!(
        subscription_status(&Some("连接 https://a.example/x?token=1 失败".to_string()), &Some("2026-09-01".to_string())),
        ("同步失败".to_string(), "连接 [服务器地址已隐藏] 失败".to_string())
    );
    assert_eq!(
        subscription_status(&None, &Some("2026-09-01 08:00:00".to_string())),
        ("已同步".to_string(), "上次同步 2026-09-01 08:00:00".to_string())
    );
    assert_eq!(subscription_status(&None, &None), ("待同步".to_string(), "已保存，等待首次同步".to_string()));
    assert_eq!(connections_summary(&vec![], &vec![]), "本地模式");
    assert_eq!(connections_summary(&vec![true, false, true], &vec![false, false, true]), "2 个连接同步失败 · 工具中可查看详情");
    assert_eq!(connections_summary(&vec![false, false, false], &vec![true, false, false]), "2 个连接待同步");
    assert_eq!(connections_summary(&vec![false, false], &vec![true, true]), "2 个连接最近同步成功");
}

#[test]
fn caldav_accounts_are_checked_then_saved_once_per_address() {
    assert_eq!(check_caldav_account("  ", "me", "pw").unwrap_err(), "CalDAV 服务器地址不能为空");
    assert_eq!(check_caldav_account("http://dav.example.com", "me", "pw").unwrap_err(), "CalDAV 服务器必须使用 HTTPS 安全连接");
    assert_eq!(check_caldav_account("dav.example.com", " ", "pw").unwrap_err(), "CalDAV 用户名不能为空");
    assert_eq!(check_caldav_account("dav.example.com", "me", "").unwrap_err(), "CalDAV 专用密码不能为空");
    assert_eq!(check_caldav_account("calendar.dingtalk.com", "me", "pw").unwrap(), "https://calendar.dingtalk.com/dav");

    let conn = rusqlite::Connection::open_in_memory().unwrap();
    conn.execute_batch(
        "CREATE TABLE subscriptions (
            id INTEGER PRIMARY KEY AUTOINCREMENT, name TEXT NOT NULL, url TEXT NOT NULL UNIQUE,
            calendar_id INTEGER NOT NULL DEFAULT 1, enabled INTEGER NOT NULL DEFAULT 1, last_sync TEXT,
            last_error TEXT, source_type TEXT NOT NULL DEFAULT 'ics', username TEXT NOT NULL DEFAULT '',
            secret TEXT NOT NULL DEFAULT '', created_at TEXT NOT NULL);",
    )
    .unwrap();
    let seal = |p: &str| -> Result<String, String> { Ok(format!("sealed:{p}")) };
    let first = create_or_update_caldav_subscription(&conn, " 工作 ", "dav.example.com/", " me ", "pw", 2, seal).unwrap();
    assert_eq!(first.url, "https://dav.example.com");
    assert_eq!(first.name, "工作");
    assert_eq!(first.username, "me");
    assert_eq!(first.secret, "sealed:pw");
    assert_eq!(first.source_type, "caldav");
    let second = create_or_update_caldav_subscription(&conn, "工作日历", "https://dav.example.com", "me", "new", 3, seal).unwrap();
    assert_eq!(second.id, first.id);
    assert_eq!(second.name, "工作日历");
    assert_eq!(second.calendar_id, 3);
    assert_eq!(second.secret, "sealed:new");
    let refused = create_or_update_caldav_subscription(&conn, "x", "dav.example.com", "me", "pw", 1, |_: &str| -> Result<String, String> {
        Err("无法加密".to_string())
    });
    assert_eq!(refused.unwrap_err(), "无法加密");
}

#[test]
fn exported_text_is_ready_for_reading() {
    let none = RepeatRule::NoRepeat;
    let events = [ExportEvent {
        uid: "d@rili".to_string(),
        title: "DURATION:PT999999999999999999H",
        date: Date { year: 2026, month: 9, day: 7 },
        time: None,
        note: "DURATION:PT1H",
        repeat_rule: &none,
    }];
    let stamp = DateTime { date: Date { year: 2026, month: 8, day: 31 }, hour: 0, minute: 0, second: 0 };
    let text = export_ics_at("日历", &events, &stamp);
    assert!(durations_readable(&text));
    assert_eq!(parse_ics(&text).unwrap()[0].duration_minutes, 60);
}

#[test]
fn relative_days_must_stay_inside_the_supported_dates() {
    let last = Date { year: 262142, month: 12, day: 31 };
    assert!(relative_fits("今天开会", &last));
    assert!(!relative_fits("明天开会", &last));
    assert!(relative_fits("明天开会", &Date { year: 2026, month: 9, day: 7 }));
    assert!(relative_fits("周会", &last));
}

fn subscription(id: i64, enabled: bool) -> Subscription {
    Subscription {
        id,
        name: format!("s{id}"),
        url: format!("https://example.com/{id}.ics"),
        calendar_id: 1,
        enabled,
        last_sync: None,
        last_error: None,
        source_type: "ics".to_string(),
        username: String::new(),
        secret: String::new(),
        created_at: "2026-01-01 00:00:00".to_string(),
    }
}

#[test]
fn only_enabled_subscriptions_are_refreshed() {
    let kept = enabled_subscriptions(vec![subscription(1, true), subscription(2, false), subscription(3, true)]);
    assert_eq!(kept.iter().map(|s| s.id).collect::<Vec<_>>(), vec![1, 3]);
    assert!(enabled_subscriptions(vec![subscription(4, false)]).is_empty());
}

#[test]
fn a_calendar_name_matches_its_oldest_calendar() {
    assert_eq!(smallest_id(&vec![]), None);
    assert_eq!(smallest_id(&vec![7, 3, 9]), Some(3));
    assert_eq!(smallest_id(&vec![-2]), Some(-2));
}

#[test]
fn a_failed_refresh_keeps_the_last_sync_time() {
    let conn = rusqlite::Connection::open_in_memory().unwrap();
    conn.execute_batch(
        "CREATE TABLE subscriptions (
            id INTEGER PRIMARY KEY AUTOINCREMENT, name TEXT NOT NULL, url TEXT NOT NULL UNIQUE,
            calendar_id INTEGER NOT NULL DEFAULT 1, enabled INTEGER NOT NULL DEFAULT 1, last_sync TEXT,
            last_error TEXT, source_type TEXT NOT NULL DEFAULT 'ics', username TEXT NOT NULL DEFAULT '',
            secret TEXT NOT NULL DEFAULT '', created_at TEXT NOT NULL);",
    )
    .unwrap();
    let s = create_subscription(&conn, "团队", "https://example.com/team.ics", 1).unwrap();
    set_subscription_result(&conn, s.id, Some("2026-09-01 08:00:00"), None).unwrap();
    set_subscription_result(&conn, s.id, None, Some("超时")).unwrap();
    let back = get_subscription(&conn, s.id).unwrap().unwrap();
    assert_eq!(back.last_sync.as_deref(), Some("2026-09-01 08:00:00"));
    assert_eq!(back.last_error.as_deref(), Some("超时"));
    set_subscription_result(&conn, s.id, Some("2026-09-02 08:00:00"), None).unwrap();
    let back = get_subscription(&conn, s.id).unwrap().unwrap();
    assert_eq!(back.last_sync.as_deref(), Some("2026-09-02 08:00:00"));
    assert_eq!(back.last_error, None);
}
