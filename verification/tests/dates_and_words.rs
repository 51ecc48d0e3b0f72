use rili::almanac::{day_ganzhi, describe};
use rili::date::Date;
use rili::holidays::notable_day_label;
use rili::integrations::{dingtalk_user_discovery_url, resolve_dav_href, safe_error};
use rili::natural::parse;
use rili::presentation::{
    course_week_for_date, course_week_range, format_duration, format_offset_label, month_end,
    parse_ui_date, parse_widget_time, shift_month, todo_due_text, todo_is_urgent,
};
use rili::date_calc::checked_add_workdays;
use rili::holidays::holidays_in_range;
use rili::db::{shift_ids_from_names, ShiftType};

fn day(y: i32, m: u32, d: u32) -> Date {
    Date::from_ymd_opt(y, m, d).unwrap()
}

#[test]
fn matches_known_reference_dates() {
    assert_eq!(day_ganzhi(&day(2024, 1, 1)), "甲子");
    assert_eq!(day_ganzhi(&day(2000, 1, 1)), "戊午");
}

#[test]
fn full_almanac_contains_daily_guidance() {
    let info = describe(&day(2026, 9, 4));
    assert!(!info.lunar_full_text.is_empty());
    assert!(!info.day_meta.is_empty());
    assert!(!info.suitable.is_empty());
    assert!(!info.avoid.is_empty());
    assert!(info.clash.starts_with('冲'));
}

#[test]
fn year_view_labels_real_festival_days_without_holiday_duplicates() {
    assert_eq!(notable_day_label(&day(2026, 4, 4)), None);
    assert_eq!(notable_day_label(&day(2026, 4, 5)).as_deref(), Some("清明"));
    assert_eq!(notable_day_label(&day(2026, 10, 1)).as_deref(), Some("国庆"));
    assert_eq!(notable_day_label(&day(2026, 9, 23)).as_deref(), Some("秋分"));
}

#[test]
fn parses_common_chinese_sentence() {
    let draft = parse("明天下午两点和供应商开会，提前一天提醒我", &day(2026, 8, 31)).unwrap();
    assert_eq!(draft.date, "2026-09-01");
    assert_eq!(draft.time, "14:00");
    assert_eq!(draft.reminder, "1440");
    assert!(draft.title.contains("供应商"));
    assert!(!draft.title.contains("下午"));
}

#[test]
fn dingtalk_discovers_all_calendars_from_the_user_collection() {
    assert_eq!(
        dingtalk_user_discovery_url("https://calendar.dingtalk.com/dav", "u_example")
            .unwrap()
            .as_deref(),
        Some("https://calendar.dingtalk.com/dav/users/u_example/")
    );
    assert_eq!(
        dingtalk_user_discovery_url("https://calendar.example/dav", "u_example").unwrap(),
        None
    );
}

#[test]
fn dingtalk_discovery_needs_a_user_and_an_address() {
    assert!(dingtalk_user_discovery_url("not a url", "u").is_err());
    assert!(dingtalk_user_discovery_url("https://calendar.dingtalk.com/dav", "  ").is_err());
}

#[test]
fn dav_addresses_resolve_against_the_server() {
    assert_eq!(
        resolve_dav_href("https://calendar.example/dav/", "/dav/user/calendars/meetings/").unwrap(),
        "https://calendar.example/dav/user/calendars/meetings/"
    );
    assert!(resolve_dav_href("no scheme", "/x").is_err());
}

#[test]
fn error_messages_are_kept_as_written() {
    let m = safe_error("连接失败");
    assert!(m.contains("连接失败"));
}

#[test]
fn widget_values_and_durations() {
    assert_eq!(format_duration(3725), "01:02:05");
    assert_eq!(format_duration(0), "00:00:00");
    assert_eq!(parse_widget_time(" 09:05 ").unwrap(), "09:05");
    assert!(parse_widget_time("25:00").is_err());
    assert_eq!(format_offset_label("0,10,60,1440"), "提醒：准时/提前10分钟/提前1小时/提前1天");
    assert_eq!(format_offset_label("x"), "");
    assert_eq!(parse_ui_date("2026-02-28", &day(2026, 1, 1)).unwrap(), day(2026, 2, 28));
    assert!(parse_ui_date("2026-02-30", &day(2026, 1, 1)).is_err());
}

#[test]
fn calendar_navigation() {
    assert_eq!(month_end(2024, 2), Some(day(2024, 2, 29)));
    assert_eq!(month_end(2026, 12), Some(day(2026, 12, 31)));
    assert_eq!(shift_month(2026, 12, 1), (2027, 1));
    assert_eq!(shift_month(2026, 1, -1), (2025, 12));
    let term = day(2026, 9, 7);
    assert_eq!(course_week_for_date(&term, &day(2026, 9, 1)), 1);
    assert_eq!(course_week_for_date(&term, &day(2026, 9, 14)), 2);
    assert_eq!(course_week_for_date(&term, &day(2028, 1, 1)), 30);
    assert_eq!(course_week_range(&term, 2), (day(2026, 9, 14), day(2026, 9, 20)));
}

#[test]
fn todo_due_dates() {
    let today = day(2026, 9, 10);
    assert_eq!(todo_due_text(Some("2026-09-09"), &today), "已逾期 2026-09-09");
    assert_eq!(todo_due_text(Some("2026-09-10"), &today), "今天到期");
    assert_eq!(todo_due_text(Some("2026-09-12"), &today), "2026-09-12 到期");
    assert_eq!(todo_due_text(None, &today), "");
    assert!(todo_is_urgent(Some("2026-09-09"), &today));
    assert!(!todo_is_urgent(None, &today));
}

#[test]
fn holiday_marks_and_workday_steps() {
    let marks: Vec<(String, String)> = holidays_in_range(&day(2026, 9, 19), &day(2026, 9, 26))
        .into_iter()
        .map(|(d, n)| (d.to_iso_string(), n))
        .collect();
    assert_eq!(
        marks,
        vec![
            ("2026-09-20".to_string(), "调休上班".to_string()),
            ("2026-09-25".to_string(), "中秋节".to_string()),
            ("2026-09-26".to_string(), "中秋节".to_string()),
        ]
    );
    assert!(holidays_in_range(&day(2026, 9, 26), &day(2026, 9, 19)).is_empty());
    // Friday 2026-09-18: the next workday is the make-up Sunday 09-20.
    assert_eq!(checked_add_workdays(day(2026, 9, 18), 1), Some(day(2026, 9, 20)));
    assert_eq!(checked_add_workdays(day(2026, 9, 18), 0), Some(day(2026, 9, 18)));
    assert_eq!(checked_add_workdays(day(2026, 9, 21), -1), Some(day(2026, 9, 20)));
    assert_eq!(checked_add_workdays(day(2026, 9, 18), i64::MIN), None);
}

#[test]
fn roster_names_become_shift_ids() {
    let kind = |id: i64, name: &str| ShiftType {
        id,
        name: name.to_string(),
        start_time: None,
        end_time: None,
        color: "#2e6be6".to_string(),
        is_rest: false,
        duration_minutes: 0,
        created_at: "x".to_string(),
    };
    let types = vec![kind(1, "白班"), kind(2, "夜班"), kind(3, "休息")];
    assert_eq!(shift_ids_from_names(" 白班, 白班,夜班,,休息 ", &types), Ok(vec![1, 1, 2, 3]));
    assert_eq!(shift_ids_from_names("白班,中班", &types), Err("找不到班次：中班".to_string()));
}

#[test]
fn workday_distance_undoes_workday_shift() {
    let start = Date::from_ymd_opt(2026, 9, 1).unwrap();
    for n in [1i64, 5, 23] {
        let r = rili::date_calc::add_workdays(start, n);
        assert_eq!(rili::date_calc::diff(start, r).workdays, n);
    }
    let saturday = Date::from_ymd_opt(2026, 9, 5).unwrap();
    for n in [-1i64, -7, -30] {
        let r = rili::date_calc::add_workdays(saturday, n);
        assert_eq!(rili::date_calc::diff(saturday, r).workdays, n);
    }
    let a = Date::from_ymd_opt(2026, 9, 28).unwrap();
    let b = Date::from_ymd_opt(2026, 10, 12).unwrap();
    assert_eq!(rili::date_calc::diff(a, b).workdays, -rili::date_calc::diff(b, a).workdays);
    let d = rili::date_calc::diff(a, b).calendar_days;
    assert!(rili::date_calc::add_calendar_days(a, d) == b);
}
