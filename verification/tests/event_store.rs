use rili::date::Date;
use rili::db::{Subscription};
use rili::event_store::{
    create_calendar, delete_calendar, delete_event_from_occurrence, delete_event_occurrence,
    find_calendar, list_calendars, mark_reminder_sent, set_calendar_visible, set_settings,
    visible_calendar_ids, list_all_events, list_events, list_special_events, apply_default_event_reminder, create_event, default_event_reminder, delete_event,
    delete_subscribed_event, get_event, merge_event_update, set_event_source_kind, set_setting,
    set_subscribed_event_repeat_until, update_event, upsert_subscribed_event, EventUpdate, NewEvent,
    SubscribedEvent,
};
use rili::ics::durations_readable;
use rili::integrations::{apply_subscription_content, get_or_create_dingtalk_calendar, sync_ics_subscription, sync_ics_subscription_with_result};
use rusqlite::Connection;

fn day(y: i32, m: u32, d: u32) -> Date {
    Date::from_ymd_opt(y, m, d).unwrap()
}

fn store_db() -> Connection {
    let conn = Connection::open_in_memory().unwrap();
    conn.execute_batch(
        "CREATE TABLE events (
            id INTEGER PRIMARY KEY AUTOINCREMENT,
            title TEXT NOT NULL,
            date TEXT NOT NULL,
            time TEXT,
            duration_minutes INTEGER NOT NULL DEFAULT 60,
            note TEXT NOT NULL DEFAULT '',
            repeat_rule TEXT NOT NULL DEFAULT 'none',
            reminder_offsets TEXT NOT NULL DEFAULT '',
            category TEXT NOT NULL DEFAULT 'event',
            source_kind TEXT NOT NULL DEFAULT 'local',
            calendar_id INTEGER NOT NULL DEFAULT 1,
            created_at TEXT NOT NULL,
            updated_at TEXT NOT NULL
        );
        CREATE TABLE reminder_log (
            event_id INTEGER NOT NULL,
            occurrence_date TEXT NOT NULL,
            offset_minutes INTEGER NOT NULL,
            notified_at TEXT NOT NULL,
            PRIMARY KEY (event_id, occurrence_date, offset_minutes)
        );
        CREATE TABLE settings (key TEXT PRIMARY KEY, value TEXT NOT NULL);
        CREATE TABLE subscriptions (
            id INTEGER PRIMARY KEY AUTOINCREMENT,
            name TEXT NOT NULL,
            url TEXT NOT NULL UNIQUE,
            calendar_id INTEGER NOT NULL DEFAULT 1,
            enabled INTEGER NOT NULL DEFAULT 1,
            last_sync TEXT,
            last_error TEXT,
            source_type TEXT NOT NULL DEFAULT 'ics',
            username TEXT NOT NULL DEFAULT '',
            secret TEXT NOT NULL DEFAULT '',
            created_at TEXT NOT NULL
        );
        CREATE TABLE event_sources (
            event_id INTEGER PRIMARY KEY,
            subscription_id INTEGER NOT NULL,
            external_uid TEXT NOT NULL,
            UNIQUE(subscription_id, external_uid)
        );
        CREATE TABLE event_exceptions (
            event_id INTEGER NOT NULL,
            occurrence_date TEXT NOT NULL,
            PRIMARY KEY (event_id, occurrence_date)
        );
        CREATE TABLE calendars (
            id INTEGER PRIMARY KEY AUTOINCREMENT,
            name TEXT NOT NULL,
            color TEXT NOT NULL,
            visible INTEGER NOT NULL DEFAULT 1,
            sort_order INTEGER NOT NULL DEFAULT 0,
            created_at TEXT NOT NULL
        );
        INSERT INTO calendars (name, color, visible, sort_order, created_at) VALUES ('默认', '#2e6be6', 1, 0, 'x');
        INSERT INTO calendars (name, color, visible, sort_order, created_at) VALUES ('工作', '#e65c2e', 0, 1, 'x');
        INSERT INTO subscriptions (name, url, calendar_id, created_at)
            VALUES ('Team', 'https://example.test/team.ics', 3, 'x');",
    )
    .unwrap();
    conn
}

fn team_subscription(enabled: bool) -> Subscription {
    Subscription {
        id: 1,
        name: "Team".to_string(),
        url: "https://example.test/team.ics".to_string(),
        calendar_id: 3,
        enabled,
        last_sync: None,
        last_error: None,
        source_type: "ics".to_string(),
        username: String::new(),
        secret: String::new(),
        created_at: "x".to_string(),
    }
}

fn new_event<'a>(title: &'a str, date: Date) -> NewEvent<'a> {
    NewEvent {
        title,
        date,
        time: Some("09:30"),
        note: "n",
        repeat_rule: "none",
        reminder_offsets: "10",
        category: "event",
        calendar_id: 2,
    }
}

#[test]
fn created_event_reads_back_and_updates_keep_untouched_fields() {
    let conn = store_db();
    let created = create_event(&conn, new_event("Dentist", day(2026, 3, 4))).unwrap();
    assert_eq!(created.title, "Dentist");
    assert_eq!(created.date, "2026-03-04");
    assert_eq!(created.time.as_deref(), Some("09:30"));
    assert_eq!(created.duration_minutes, 60);
    assert_eq!(created.source_kind, "local");

    let mut change = EventUpdate::keep_all();
    change.title = Some("Dentist (moved)");
    change.time = Some(None);
    change.duration_minutes = Some(30);
    let updated = update_event(&conn, created.id, change).unwrap();
    assert_eq!(updated.title, "Dentist (moved)");
    assert_eq!(updated.time, None);
    assert_eq!(updated.duration_minutes, 30);
    assert_eq!(updated.note, "n");
    assert_eq!(updated.calendar_id, 2);
    assert_eq!(get_event(&conn, created.id).unwrap().unwrap().title, "Dentist (moved)");
}

#[test]
fn updating_a_missing_event_fails() {
    let conn = store_db();
    let err = update_event(&conn, 42, EventUpdate::keep_all()).unwrap_err();
    assert_eq!(err, "日程不存在");
}

#[test]
fn merge_takes_each_changed_field() {
    let conn = store_db();
    let created = create_event(&conn, new_event("Run", day(2026, 1, 2))).unwrap();
    let mut change = EventUpdate::keep_all();
    change.date = Some(day(2027, 12, 31));
    change.category = Some("birthday");
    let f = merge_event_update(&created, &change);
    assert_eq!(f.date, "2027-12-31");
    assert_eq!(f.category, "birthday");
    assert_eq!(f.title, "Run");
    assert_eq!(f.time.as_deref(), Some("09:30"));
}

#[test]
fn only_local_events_are_deleted() {
    let conn = store_db();
    let local = create_event(&conn, new_event("Mine", day(2026, 3, 4))).unwrap();
    let shared = create_event(&conn, new_event("Theirs", day(2026, 3, 4))).unwrap();
    set_event_source_kind(&conn, shared.id, "shared").unwrap();
    assert_eq!(delete_event(&conn, shared.id).unwrap(), 0);
    assert_eq!(delete_event(&conn, local.id).unwrap(), 1);
    assert!(get_event(&conn, local.id).unwrap().is_none());
    assert!(get_event(&conn, shared.id).unwrap().is_some());
    assert_eq!(delete_event(&conn, 999).unwrap(), 0);
}

#[test]
fn unknown_source_kind_is_refused() {
    let conn = store_db();
    let e = create_event(&conn, new_event("Mine", day(2026, 3, 4))).unwrap();
    assert_eq!(set_event_source_kind(&conn, e.id, "remote").unwrap_err(), "未知日程来源");
}

#[test]
fn default_reminder_falls_back_and_applies_to_all_events() {
    let conn = store_db();
    assert_eq!(default_event_reminder(&conn).unwrap(), "10");
    set_setting(&conn, "default_event_reminder", "garbage").unwrap();
    assert_eq!(default_event_reminder(&conn).unwrap(), "10");
    set_setting(&conn, "default_event_reminder", "1440").unwrap();
    assert_eq!(default_event_reminder(&conn).unwrap(), "1440");

    create_event(&conn, new_event("A", day(2026, 3, 4))).unwrap();
    create_event(&conn, new_event("B", day(2026, 3, 5))).unwrap();
    assert_eq!(apply_default_event_reminder(&conn, "60").unwrap(), 2);
    assert_eq!(apply_default_event_reminder(&conn, "60").unwrap(), 0);
    assert_eq!(default_event_reminder(&conn).unwrap(), "60");
    assert_eq!(apply_default_event_reminder(&conn, "15").unwrap_err(), "不支持的默认提醒模式");
}

fn remote<'a>(uid: &'a str, title: &'a str, duration: i64) -> SubscribedEvent<'a> {
    SubscribedEvent {
        subscription_id: 1,
        calendar_id: 3,
        external_uid: uid,
        title,
        date: day(2026, 4, 1),
        time: Some("10:00"),
        duration_minutes: duration,
        note: "",
        repeat_rule: "weekly",
    }
}

#[test]
fn mirrored_events_are_created_once_and_then_updated() {
    let conn = store_db();
    let id = upsert_subscribed_event(&conn, remote("u-1", "Sync", 0)).unwrap();
    let first = get_event(&conn, id).unwrap().unwrap();
    assert_eq!(first.source_kind, "subscription");
    assert_eq!(first.duration_minutes, 1);
    assert_eq!(first.reminder_offsets, "10");
    assert_eq!(first.calendar_id, 3);

    let again = upsert_subscribed_event(&conn, remote("u-1", "Sync v2", 45)).unwrap();
    assert_eq!(again, id);
    let second = get_event(&conn, id).unwrap().unwrap();
    assert_eq!(second.title, "Sync v2");
    assert_eq!(second.duration_minutes, 45);

    assert_eq!(upsert_subscribed_event(&conn, remote("  ", "x", 5)).unwrap_err(), "订阅事件缺少 UID");
}

#[test]
fn series_end_becomes_a_cutoff_marker_the_day_after() {
    let conn = store_db();
    let id = upsert_subscribed_event(&conn, remote("u-2", "Series", 30)).unwrap();
    set_subscribed_event_repeat_until(&conn, id, Some(day(2026, 4, 30))).unwrap();
    let marker: String = conn
        .query_row("SELECT occurrence_date FROM event_exceptions WHERE event_id = ?1", [id], |r| r.get(0))
        .unwrap();
    assert_eq!(marker, "from:2026-05-01");
    set_subscribed_event_repeat_until(&conn, id, None).unwrap();
    let n: i64 = conn
        .query_row("SELECT COUNT(*) FROM event_exceptions WHERE event_id = ?1", [id], |r| r.get(0))
        .unwrap();
    assert_eq!(n, 0);
}

#[test]
fn cancelled_mirror_is_deleted_with_its_link() {
    let conn = store_db();
    let id = upsert_subscribed_event(&conn, remote("u-3", "Gone", 30)).unwrap();
    assert!(delete_subscribed_event(&conn, 1, "u-3").unwrap());
    assert!(get_event(&conn, id).unwrap().is_none());
    assert!(!delete_subscribed_event(&conn, 1, "u-3").unwrap());
}

const FEED: &str = "BEGIN:VCALENDAR\r\nBEGIN:VEVENT\r\nUID:a\r\nSUMMARY:Planning\r\nDTSTART:20260410T090000\r\nDURATION:PT30M\r\nLOCATION:Room 1\r\nEND:VEVENT\r\nBEGIN:VEVENT\r\nUID:b\r\nSUMMARY:Retro\r\nDTSTART;VALUE=DATE:20260411\r\nEND:VEVENT\r\nEND:VCALENDAR\r\n";

#[test]
fn subscription_content_is_mirrored_and_cancellations_removed() {
    let conn = store_db();
    let sub = team_subscription(true);
    let r = apply_subscription_content(&conn, &sub, FEED).unwrap();
    assert_eq!(r.imported_events, 2);
    assert_eq!(r.removed_cancelled_events, 0);
    let note: String = conn
        .query_row("SELECT note FROM events WHERE title = 'Planning'", [], |r| r.get(0))
        .unwrap();
    assert_eq!(note, "地点：Room 1");

    let cancelled = "BEGIN:VCALENDAR\r\nBEGIN:VEVENT\r\nUID:b\r\nSUMMARY:Retro\r\nSTATUS:CANCELLED\r\nDTSTART;VALUE=DATE:20260411\r\nEND:VEVENT\r\nEND:VCALENDAR\r\n";
    let r = apply_subscription_content(&conn, &sub, cancelled).unwrap();
    assert_eq!(r.imported_events, 0);
    assert_eq!(r.removed_cancelled_events, 1);
    let left: i64 = conn.query_row("SELECT COUNT(*) FROM events", [], |r| r.get(0)).unwrap();
    assert_eq!(left, 1);
}

#[test]
fn overflowing_durations_are_refused() {
    let huge = "BEGIN:VCALENDAR\nBEGIN:VEVENT\nUID:x\nDTSTART:20260410T090000\nDURATION:PT999999999999999999H\nEND:VEVENT\nEND:VCALENDAR\n";
    assert!(!durations_readable(huge));
    assert!(durations_readable(FEED));
    let outside = "DURATION:PT999999999999999999H\nBEGIN:VEVENT\nEND:VEVENT\n";
    assert!(durations_readable(outside));
    let conn = store_db();
    let err = apply_subscription_content(&conn, &team_subscription(true), huge).unwrap_err();
    assert_eq!(err, "解析 ICS 订阅失败");
}

#[test]
fn refresh_records_outcome_and_hides_addresses() {
    let conn = store_db();
    let err = sync_ics_subscription_with_result(&conn, &team_subscription(false), Ok(FEED.to_string())).unwrap_err();
    assert_eq!(err, "订阅已停用：Team");

    let err = sync_ics_subscription_with_result(
        &conn,
        &team_subscription(true),
        Err("拉取 ICS 订阅失败： https://example.test/team.ics?token=1".to_string()),
    )
    .unwrap_err();
    assert_eq!(err, "拉取 ICS 订阅失败： [服务器地址已隐藏]");
    let stored: Option<String> = conn
        .query_row("SELECT last_error FROM subscriptions WHERE id = 1", [], |r| r.get(0))
        .unwrap();
    assert_eq!(stored.as_deref(), Some("拉取 ICS 订阅失败： [服务器地址已隐藏]"));

    let n = sync_ics_subscription(&conn, &team_subscription(true), Ok(FEED.to_string())).unwrap();
    assert_eq!(n, 2);
    let (sync, error): (Option<String>, Option<String>) = conn
        .query_row("SELECT last_sync, last_error FROM subscriptions WHERE id = 1", [], |r| Ok((r.get(0)?, r.get(1)?)))
        .unwrap();
    assert!(sync.is_some());
    assert_eq!(error, None);
}

fn repeating<'a>(title: &'a str, date: Date, rule: &'a str) -> NewEvent<'a> {
    NewEvent { repeat_rule: rule, ..new_event(title, date) }
}

#[test]
fn one_occurrence_of_a_series_becomes_an_exception() {
    let conn = store_db();
    let e = create_event(&conn, repeating("Standup", day(2026, 5, 4), "daily")).unwrap();
    assert_eq!(delete_event_occurrence(&conn, e.id, &day(2026, 5, 6)).unwrap(), 1);
    let v: String = conn
        .query_row("SELECT occurrence_date FROM event_exceptions WHERE event_id = ?1", [e.id], |r| r.get(0))
        .unwrap();
    assert_eq!(v, "2026-05-06");
    assert!(get_event(&conn, e.id).unwrap().is_some());
    assert_eq!(
        delete_event_occurrence(&conn, e.id, &day(2026, 5, 1)).unwrap_err(),
        "所选日期不是该日程的发生日期"
    );
}

#[test]
fn the_rest_of_a_series_is_cut_off_and_single_events_are_deleted() {
    let conn = store_db();
    let weekly = create_event(&conn, repeating("Review", day(2026, 5, 4), "weekly")).unwrap();
    assert_eq!(delete_event_from_occurrence(&conn, weekly.id, &day(2026, 5, 18)).unwrap(), 1);
    let v: String = conn
        .query_row("SELECT occurrence_date FROM event_exceptions WHERE event_id = ?1", [weekly.id], |r| r.get(0))
        .unwrap();
    assert_eq!(v, "from:2026-05-18");
    assert!(delete_event_from_occurrence(&conn, weekly.id, &day(2026, 5, 19)).is_err());

    let single = create_event(&conn, new_event("Once", day(2026, 5, 4))).unwrap();
    assert_eq!(delete_event_occurrence(&conn, single.id, &day(2026, 5, 4)).unwrap(), 1);
    assert!(get_event(&conn, single.id).unwrap().is_none());

    let shared = create_event(&conn, repeating("Theirs", day(2026, 5, 4), "daily")).unwrap();
    set_event_source_kind(&conn, shared.id, "imported").unwrap();
    assert_eq!(
        delete_event_occurrence(&conn, shared.id, &day(2026, 5, 5)).unwrap_err(),
        "共享或外部日程不能在本地删除"
    );
    assert_eq!(delete_event_occurrence(&conn, 999, &day(2026, 5, 5)).unwrap_err(), "日程不存在");
}

#[test]
fn a_reminder_is_marked_sent_once() {
    let conn = store_db();
    assert!(mark_reminder_sent(&conn, 1, "2026-05-04", 10).unwrap());
    assert!(!mark_reminder_sent(&conn, 1, "2026-05-04", 10).unwrap());
    assert!(mark_reminder_sent(&conn, 1, "2026-05-04", 60).unwrap());
}

#[test]
fn settings_are_saved_together() {
    let mut conn = store_db();
    set_settings(&mut conn, &[("theme", "dark"), ("week_start", "sunday")]).unwrap();
    let n: i64 = conn.query_row("SELECT COUNT(*) FROM settings", [], |r| r.get(0)).unwrap();
    assert_eq!(n, 2);
}

#[test]
fn calendars_visibility_and_lookup() {
    let conn = store_db();
    let cals = list_calendars(&conn).unwrap();
    assert_eq!(cals.len(), 2);
    assert!(!cals[1].visible);
    let visible = visible_calendar_ids(&conn).unwrap();
    assert!(visible.contains(&1) && !visible.contains(&2));
    set_calendar_visible(&conn, 2, true).unwrap();
    assert!(visible_calendar_ids(&conn).unwrap().contains(&2));

    let found = find_calendar(list_calendars(&conn).unwrap(), "工作").unwrap();
    assert_eq!(found.id, 2);
    assert!(find_calendar(list_calendars(&conn).unwrap(), "家庭").is_none());

    let created = create_calendar(&conn, "家庭", "#00aa00").unwrap();
    assert!(created.visible);
    assert_eq!(created.name, "家庭");

    let ding = get_or_create_dingtalk_calendar(&conn).unwrap();
    assert_eq!(ding.name, "钉钉会议");
    assert_eq!(ding.color, "#1677ff");
    assert_eq!(get_or_create_dingtalk_calendar(&conn).unwrap().id, ding.id);

    let e = create_event(&conn, NewEvent { calendar_id: created.id, ..new_event("Dinner", day(2026, 5, 4)) }).unwrap();
    assert_eq!(delete_calendar(&conn, created.id).unwrap(), 1);
    assert_eq!(get_event(&conn, e.id).unwrap().unwrap().calendar_id, 1);
}

#[test]
fn calendar_files_export_rules_and_import_active_events() {
    let conn = store_db();
    let weekly = create_event(&conn, NewEvent { repeat_rule: "weekly", ..new_event("Gym", day(2026, 3, 2)) }).unwrap();
    let (text, count) = rili::event_store::export_calendar(&conn, "Mine").unwrap();
    assert_eq!(count, 1);
    assert!(text.contains(&format!("UID:rili-event-{}@local", weekly.id)));
    assert!(text.contains("RRULE:FREQ=WEEKLY"));
    assert!(text.contains("X-WR-CALNAME:Mine"));

    let feed = "BEGIN:VCALENDAR\r\nBEGIN:VEVENT\r\nUID:x\r\nSUMMARY:Kept\r\nDTSTART;VALUE=DATE:20260501\r\nEND:VEVENT\r\nBEGIN:VEVENT\r\nUID:y\r\nSUMMARY:Dropped\r\nSTATUS:CANCELLED\r\nDTSTART;VALUE=DATE:20260502\r\nEND:VEVENT\r\nEND:VCALENDAR\r\n";
    assert_eq!(rili::event_store::import_calendar(&conn, feed, 2).unwrap(), 1);
    let kept: (String, i64, String) = conn
        .query_row("SELECT date, calendar_id, reminder_offsets FROM events WHERE title = 'Kept'", [], |r| {
            Ok((r.get(0)?, r.get(1)?, r.get(2)?))
        })
        .unwrap();
    assert_eq!(kept, ("2026-05-01".to_string(), 2, "10".to_string()));
    let huge = "BEGIN:VEVENT\nDURATION:PT999999999999999999H\nEND:VEVENT\n";
    assert_eq!(rili::event_store::import_calendar(&conn, huge, 2).unwrap_err(), "ICS 中的 DURATION 超出范围");
}

#[test]
fn event_lists_keep_to_their_range_and_category() {
    let conn = store_db();
    create_event(&conn, new_event("Before", day(2026, 4, 30))).unwrap();
    create_event(&conn, new_event("Inside", day(2026, 5, 2))).unwrap();
    create_event(&conn, new_event("After", day(2026, 5, 8))).unwrap();
    create_event(&conn, NewEvent { category: "birthday", ..new_event("Mum", day(2026, 5, 3)) }).unwrap();
    let titles: Vec<String> = list_events(&conn, &day(2026, 5, 1), &day(2026, 5, 7)).unwrap().into_iter().map(|e| e.title).collect();
    assert_eq!(titles, vec!["Inside".to_string(), "Mum".to_string()]);
    let special: Vec<String> = list_special_events(&conn).unwrap().into_iter().map(|e| e.title).collect();
    assert_eq!(special, vec!["Mum".to_string()]);
    let all: Vec<String> = list_all_events(&conn).unwrap().into_iter().map(|e| e.title).collect();
    assert_eq!(all, vec!["Before".to_string(), "Inside".to_string(), "Mum".to_string(), "After".to_string()]);
}
