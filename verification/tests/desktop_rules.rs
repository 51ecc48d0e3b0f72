use rili::autostart::{is_enabled, launch_failure, registry_args, registry_outcome, set_enabled, startup_command, RegistryRequest};
use rili::daily_quote::{quote_at, quote_for, QUOTE_COUNT};
use rili::error_reporter::{record, report, take_pending, PendingErrors, MAX_PENDING_ERRORS};
use rili::event_timing::{classify, Timing};
use rili::font_settings::{choice_from_family, family_from_choice, is_font_extension};
use rili::reminders::{
    dispatch_gui_notification, format_offset, install_gui_notifier, reminder_alert,
    reminder_body, reminder_offsets, send_test_notification, is_due, event_start,
    NotificationStyle, ReminderAlert, ReminderCenter,
};
use rili::date::{Date, DateTime};
use std::collections::HashSet;
use std::sync::mpsc;
use rili::db::{Event, EventOccurrence};
use rili::reminders::{check_reminders_fit, due_reminders};

#[test]
fn startup_command_quotes_paths_with_spaces() {
    let command = startup_command(r"C:\Program Files\TimeHub\rili.exe");
    assert_eq!(command, r#""C:\Program Files\TimeHub\rili.exe""#);
}

#[test]
fn contains_hundreds_of_unique_offline_phrases() {
    let phrases: HashSet<_> = (0..QUOTE_COUNT).map(quote_at).collect();
    assert_eq!(phrases.len(), 1152);
}

#[test]
fn quote_index_combines_opening_and_ending() {
    assert_eq!(quote_at(0), "把复杂的事情拆小，时间会让答案逐渐清晰。");
    assert_eq!(quote_at(48), "把复杂的事情拆小，微小的完成也值得被看见。");
    assert_eq!(quote_at(QUOTE_COUNT), quote_at(0));
}

#[test]
fn mixed_quote_always_comes_from_the_offline_bank() {
    for (nanos, pid, seq) in [(0u64, 0u32, 0u64), (1_700_000_000_000_000_000, 4242, 7), (u64::MAX, u32::MAX, u64::MAX)] {
        let quote = quote_for(nanos, pid, seq);
        assert!((0..QUOTE_COUNT).any(|index| quote_at(index) == quote));
    }
}

#[test]
fn background_error_is_queued_for_the_gui() {
    let mut pending = PendingErrors::new();
    while take_pending(&mut pending).is_some() {}
    report(&mut pending, "测试错误", "示例");
    assert_eq!(take_pending(&mut pending).as_deref(), Some("测试错误：示例"));
}

#[test]
fn error_queue_keeps_the_latest_twenty_in_order() {
    let mut pending = PendingErrors::new();
    for i in 0..25 {
        report(&mut pending, "上下文", &format!("{i}"));
    }
    assert_eq!(pending.len(), MAX_PENDING_ERRORS);
    assert_eq!(take_pending(&mut pending).as_deref(), Some("上下文：5"));
    assert_eq!(take_pending(&mut pending).as_deref(), Some("上下文：6"));
    assert_eq!(record("a", "b"), "a：b");
}

#[test]
fn morning_evening_and_boundaries_use_current_time() {
    assert_eq!(classify(540, 60, false, false, 500), Timing::Upcoming);
    assert_eq!(classify(540, 60, false, false, 540), Timing::Ongoing);
    assert_eq!(classify(540, 60, false, false, 600), Timing::Ended);
    assert_eq!(classify(1200, 60, false, false, 1300), Timing::Ended);
    assert_eq!(classify(0, 1440, true, false, 600), Timing::AllDay);
    assert_eq!(classify(700, 60, false, true, 600), Timing::Cancelled);
}

#[test]
fn zero_length_events_last_a_minute_and_ends_saturate() {
    assert_eq!(classify(600, 0, false, false, 600), Timing::Ongoing);
    assert_eq!(classify(600, 0, false, false, 601), Timing::Ended);
    assert_eq!(classify(i32::MAX - 1, 100, false, false, i32::MAX - 1), Timing::Ongoing);
}

#[test]
fn preset_labels_map_to_expected_system_families() {
    assert_eq!(family_from_choice("系统默认"), Some(""));
    assert_eq!(family_from_choice("微软雅黑"), Some("Microsoft YaHei UI"));
    assert_eq!(family_from_choice("未知"), None);
    assert_eq!(choice_from_family("DengXian"), "等线");
    assert_eq!(choice_from_family("Example Font"), "自定义 · Example Font");
}

#[test]
fn font_labels_read_back_and_extensions_ignore_case() {
    for label in ["系统默认", "Noto Sans SC", "微软雅黑", "等线", "思源宋体"] {
        let family = family_from_choice(label).unwrap();
        assert_eq!(choice_from_family(family), label);
    }
    assert_eq!(choice_from_family("Microsoft YaHei"), "微软雅黑");
    assert!(is_font_extension("TTF"));
    assert!(is_font_extension("otf"));
    assert!(!is_font_extension("woff"));
}

#[test]
fn reminder_offset_labels_are_stable() {
    assert_eq!(format_offset(0), "现在开始");
    assert_eq!(format_offset(10), "10 分钟后开始");
    assert_eq!(format_offset(60), "1 小时后开始");
    assert_eq!(format_offset(1440), "1 天后开始");
}

#[test]
fn negative_offsets_and_large_ones_read_as_written() {
    assert_eq!(format_offset(-60), "-1 小时后开始");
    assert_eq!(format_offset(2880), "2 天后开始");
    assert_eq!(format_offset(90), "90 分钟后开始");
    assert_eq!(reminder_offsets(" 10, 60 ,x,,1440"), vec![10, 60, 1440]);
}

#[test]
fn due_reminder_is_always_forwarded_to_the_gui_popup() {
    let mut center = ReminderCenter::new();
    let (sender, receiver) = mpsc::channel();
    install_gui_notifier(&mut center, move |message| sender.send(message).is_ok());
    dispatch_gui_notification(
        &mut center,
        ReminderAlert {
            message: "日程提醒：测试 · 2026-09-07 12:46  现在开始".to_string(),
            style: NotificationStyle::Strong,
        },
    );

    let alert = receiver.recv().unwrap();
    assert_eq!(alert.style, NotificationStyle::Strong);
    assert!(alert.message.contains("日程提醒：测试"));
    assert!(alert.message.contains("2026-09-07 12:46"));
    assert!(alert.message.contains("现在开始"));
}

#[test]
fn alerts_wait_until_a_notifier_accepts_them() {
    let mut center = ReminderCenter::new();
    let (sender, receiver) = mpsc::channel::<ReminderAlert>();
    let alert = |m: &str| ReminderAlert { message: m.to_string(), style: NotificationStyle::Standard };
    // Before a notifier is installed, alerts wait (at most twenty).
    let mut early: ReminderCenter<Box<dyn Fn(ReminderAlert) -> bool>> = ReminderCenter::new();
    for i in 0..22 {
        dispatch_gui_notification(&mut early, alert(&format!("{i}")));
    }
    assert_eq!(early.pending_count(), 20);
    // A notifier that refuses everything keeps them waiting.
    dispatch_gui_notification(&mut center, alert("一"));
    dispatch_gui_notification(&mut center, alert("二"));
    assert_eq!(center.pending_count(), 2);
    install_gui_notifier(&mut center, move |m| sender.send(m).is_ok());
    assert_eq!(center.pending_count(), 0);
    assert_eq!(receiver.recv().unwrap().message, "一");
    assert_eq!(receiver.recv().unwrap().message, "二");
}

#[test]
fn notification_styles_reject_unknown_persisted_values() {
    assert_eq!(NotificationStyle::from_setting("quiet"), NotificationStyle::Quiet);
    assert_eq!(NotificationStyle::from_setting("strong"), NotificationStyle::Strong);
    assert_eq!(NotificationStyle::from_setting("broken"), NotificationStyle::Standard);
    assert_eq!(NotificationStyle::Strong.as_setting(), "strong");
    assert_eq!(NotificationStyle::Strong.effect_level(), 2);
}

#[test]
fn styles_read_back_from_their_settings() {
    for style in [NotificationStyle::Quiet, NotificationStyle::Standard, NotificationStyle::Strong] {
        assert_eq!(NotificationStyle::from_setting(style.as_setting()), style);
    }
    assert_eq!(NotificationStyle::from_setting("  quiet "), NotificationStyle::Quiet);
    assert_eq!(NotificationStyle::Quiet.effect_level(), 0);
}

#[test]
fn test_notification_skips_the_quiet_style() {
    let toast = |_t: String, _b: String| -> Result<(), String> { Err("当前平台暂不支持系统通知".to_string()) };
    assert_eq!(send_test_notification(NotificationStyle::Quiet, &toast), Ok(()));
    assert_eq!(
        send_test_notification(NotificationStyle::Standard, &toast),
        Err("当前平台暂不支持系统通知".to_string())
    );
    let seen = |t: String, b: String| -> Result<(), String> {
        assert_eq!(t, "TimeHub 示例提醒");
        assert_eq!(b, "系统通知通道工作正常");
        Ok(())
    };
    assert_eq!(send_test_notification(NotificationStyle::Strong, &seen), Ok(()));
}

#[test]
fn reminder_texts_and_due_window() {
    let date = Date { year: 2026, month: 9, day: 7 };
    let start = event_start(date, Some("12:46"));
    assert_eq!(start, DateTime { date, hour: 12, minute: 46, second: 0 });
    assert_eq!(event_start(date, Some("bad")).hour, 9);
    assert_eq!(event_start(date, None).minute, 0);
    assert_eq!(reminder_body(&start, 0), "2026-09-07 12:46  现在开始");
    let alert = reminder_alert("测试", &start, 0, NotificationStyle::Strong);
    assert_eq!(alert.message, "日程提醒：测试 · 2026-09-07 12:46  现在开始");
    let now = DateTime { date, hour: 12, minute: 40, second: 0 };
    assert!(is_due(&start, 10, &now));
    assert!(!is_due(&start, 0, &now));
    let next_day = DateTime { date: Date { year: 2026, month: 9, day: 8 }, hour: 12, minute: 47, second: 0 };
    assert!(!is_due(&start, 0, &next_day));
}

#[test]
fn due_reminders_follow_offsets_and_skip_stale_ones() {
    let occ = EventOccurrence {
        event: Event {
            id: 7,
            title: "评审".to_string(),
            date: "2026-09-07".to_string(),
            time: Some("10:00".to_string()),
            duration_minutes: 60,
            note: String::new(),
            repeat_rule: "none".to_string(),
            reminder_offsets: "0, 30,1440,x".to_string(),
            category: "event".to_string(),
            calendar_id: 1,
            created_at: "x".to_string(),
            updated_at: "x".to_string(),
            source_kind: "local".to_string(),
        },
        occurrence_date: "2026-09-07".to_string(),
    };
    let occs = vec![occ];
    let now = DateTime { date: Date { year: 2026, month: 9, day: 7 }, hour: 9, minute: 40, second: 0 };
    assert!(check_reminders_fit(&occs, &now));
    let due = due_reminders(&occs, &now);
    let offsets: Vec<i64> = due.iter().map(|d| d.offset_minutes).collect();
    // 30 minutes before (09:30) has come; the start (10:00) has not; a day before is
    // within the last day.
    assert_eq!(offsets, vec![30, 1440]);
    assert!(due.iter().all(|d| d.occurrence == 0 && d.starts_at.hour == 10));
}

#[test]
fn start_at_login_is_not_available_without_the_registry() {
    assert!(!is_enabled(false, true));
    assert_eq!(set_enabled(false, true, Some("rili"), false).unwrap_err(), "当前平台暂不支持开机启动设置");
    assert_eq!(set_enabled(false, false, None, true).unwrap_err(), "当前平台暂不支持开机启动设置");
}

#[test]
fn start_at_login_asks_the_registry_for_what_is_needed() {
    assert!(is_enabled(true, true));
    assert!(!is_enabled(true, false));
    let add = set_enabled(true, true, Some(r"C:\Program Files\TimeHub\rili.exe"), false).unwrap().unwrap();
    assert_eq!(add, RegistryRequest::Add(r#""C:\Program Files\TimeHub\rili.exe""#.to_string()));
    let args = registry_args(&add);
    assert_eq!(args.len(), 9);
    assert_eq!(args[0], "ADD");
    assert_eq!(args[7], r#""C:\Program Files\TimeHub\rili.exe""#);
    assert_eq!(set_enabled(true, true, None, false).unwrap_err(), "无法确定 TimeHub 程序路径");
    assert_eq!(set_enabled(true, false, None, false).unwrap(), None);
    assert_eq!(set_enabled(true, false, None, true).unwrap(), Some(RegistryRequest::Delete));
    assert_eq!(registry_args(&RegistryRequest::Delete), vec!["DELETE", r"HKCU\Software\Microsoft\Windows\CurrentVersion\Run", "/v", "TimeHub", "/f"]);
    assert_eq!(launch_failure(&RegistryRequest::Delete), "无法删除 Windows 开机启动项");
    assert!(registry_outcome(true, "", None).is_ok());
    assert_eq!(registry_outcome(false, "  拒绝访问。\r\n", Some(1)).unwrap_err(), "Windows 注册表操作失败：拒绝访问。");
    assert_eq!(registry_outcome(false, " ", Some(5)).unwrap_err(), "Windows 注册表操作失败（退出码 Some(5)）");
    assert_eq!(registry_outcome(false, "", None).unwrap_err(), "Windows 注册表操作失败（退出码 None）");
}
