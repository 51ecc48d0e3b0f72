use rili::date::{Date, DateTime};
use rili::ics::{
    escape_text, export_ics_at, parse_duration_minutes, parse_ics, parse_ics_datetime,
    parse_rrule, parse_rrule_until, repeat_rule_to_rrule, title_marks_cancelled, unescape_text,
    unfold_lines, weekday_code, weekday_from_code, ExportEvent,
};
use rili::recurrence::RepeatRule;

#[test]
fn imports_recurrence_until_without_creating_an_infinite_series() {
    let content: String = [
        "BEGIN:VCALENDAR\r\nBEGIN:VEVENT\r\nUID:bounded-weekly\r\n",
        "DTSTART;TZID=China Standard Time:20250904T100000\r\n",
        "RRULE:FREQ=WEEKLY;UNTIL=20250904T020000Z;INTERVAL=1;BYDAY=TH;WKST=MO\r\n",
        "SUMMARY:网络维护\r\nEND:VEVENT\r\nEND:VCALENDAR\r\n",
    ].concat();
    let event = parse_ics(&content).unwrap().remove(0);
    assert_eq!(event.repeat_rule, RepeatRule::WeeklyOn(vec![3]));
    assert_eq!(event.repeat_until, Date::from_ymd_opt(2025, 9, 4));
}

#[test]
fn unsupported_recurrence_count_does_not_repeat_forever() {
    let (rule, until) = parse_rrule("FREQ=WEEKLY;COUNT=4;BYDAY=MO");
    assert_eq!(rule, RepeatRule::NoRepeat);
    assert_eq!(until, None);
}

#[test]
fn month_day_lists_import_only_the_first_day() {
    let (rule, until) = parse_rrule("FREQ=MONTHLY;BYMONTHDAY=1,15");
    assert_eq!(rule, RepeatRule::NoRepeat);
    assert_eq!(until, None);
}

#[test]
fn recognizes_standard_and_outlook_cancelled_events() {
    let content: String = [
        "BEGIN:VCALENDAR\r\n",
        "BEGIN:VEVENT\r\nUID:standard\r\nDTSTART:20260903T090000\r\n",
        "SUMMARY:普通标题\r\nSTATUS:CANCELLED\r\nEND:VEVENT\r\n",
        "BEGIN:VEVENT\r\nUID:outlook\r\nDTSTART:20260904T090000\r\n",
        "SUMMARY:已取消: 项目周会\r\nEND:VEVENT\r\n",
        "BEGIN:VEVENT\r\nUID:active\r\nDTSTART:20260905T090000\r\n",
        "SUMMARY:项目周会\r\nEND:VEVENT\r\nEND:VCALENDAR\r\n",
    ].concat();

    let events = parse_ics(&content).unwrap();
    assert_eq!(events.len(), 3);
    assert!(events[0].cancelled);
    assert!(events[1].cancelled);
    assert!(!events[2].cancelled);
}

#[test]
fn malformed_or_non_ascii_time_never_panics() {
    let content: String = [
        "BEGIN:VCALENDAR\r\n",
        "BEGIN:VEVENT\r\nUID:bad-time\r\nDTSTART:20260903T上午九点\r\n",
        "SUMMARY:中文时间\r\nEND:VEVENT\r\n",
        "BEGIN:VEVENT\r\nUID:invalid-time\r\nDTSTART:20260904T996000\r\n",
        "SUMMARY:越界时间\r\nEND:VEVENT\r\nEND:VCALENDAR\r\n",
    ].concat();

    let events = parse_ics(&content).unwrap();
    assert_eq!(events.len(), 2);
    assert_eq!(events[0].time, None);
    assert_eq!(events[1].time, None);
}

#[test]
fn unfolds_and_unescapes_common_ics_text() {
    let content: String = [
        "BEGIN:VCALENDAR\r\nBEGIN:VEVENT\r\nUID:folded\r\n",
        "DTSTART;VALUE=DATE:20260905\r\n",
        "SUMMARY:项目\\,周\r\n 会\r\n",
        "DESCRIPTION:第一行\\n第二行\r\nEND:VEVENT\r\nEND:VCALENDAR\r\n",
    ].concat();
    let events = parse_ics(&content).unwrap();
    assert_eq!(events[0].title, "项目,周会");
    assert_eq!(events[0].note, "第一行\n第二行");
}

#[test]
fn imports_meeting_duration_location_and_join_url() {
    let content: String = [
        "BEGIN:VCALENDAR\r\nBEGIN:VEVENT\r\nUID:ding-meeting-1\r\n",
        "DTSTART;TZID=Asia/Shanghai:20260905T093000\r\n",
        "DTEND;TZID=Asia/Shanghai:20260905T110000\r\n",
        "SUMMARY:钉钉项目会\r\nLOCATION:三楼会议室\r\n",
        "URL:https://meeting.dingtalk.com/example\r\nEND:VEVENT\r\nEND:VCALENDAR\r\n",
    ].concat();
    let event = parse_ics(&content).unwrap().remove(0);
    assert_eq!(event.time.as_deref(), Some("09:30"));
    assert_eq!(event.duration_minutes, 90);
    assert_eq!(event.location, "三楼会议室");
    assert_eq!(event.url, "https://meeting.dingtalk.com/example");
}

#[test]
fn imports_explicit_meeting_duration() {
    let content: String = [
        "BEGIN:VCALENDAR\r\nBEGIN:VEVENT\r\nUID:ding-meeting-2\r\n",
        "DTSTART:20260905T093000\r\nDURATION:PT1H15M\r\n",
        "SUMMARY:钉钉培训\r\nEND:VEVENT\r\nEND:VCALENDAR\r\n",
    ].concat();
    assert_eq!(parse_ics(&content).unwrap()[0].duration_minutes, 75);
}

#[test]
fn events_without_start_or_outside_blocks_are_skipped() {
    let content = "SUMMARY:outside\r\nBEGIN:VEVENT\r\nSUMMARY:no start\r\nEND:VEVENT\r\nBEGIN:VEVENT\r\nDTSTART:2026\r\nEND:VEVENT\r\n";
    assert!(parse_ics(&content).unwrap().is_empty());
    let one = parse_ics("BEGIN:VEVENT\nDTSTART:20260230T090000\nEND:VEVENT\n").unwrap();
    assert!(one.is_empty());
}

#[test]
fn duration_defaults_to_an_hour() {
    let content = "BEGIN:VEVENT\r\nDTSTART:20260905T093000\r\nDTEND:20260905T090000\r\nEND:VEVENT\r\n";
    let event = parse_ics(&content).unwrap().remove(0);
    assert_eq!(event.duration_minutes, 60);
    assert_eq!(event.title, "");
    assert!(!event.cancelled);
}

#[test]
fn rrule_text_reads_back_for_every_rule() {
    for rule in [
        RepeatRule::Daily,
        RepeatRule::Weekly,
        RepeatRule::WeeklyOn(vec![0, 2, 6]),
        RepeatRule::Monthly,
        RepeatRule::MonthlyNth(3, 4),
        RepeatRule::Yearly,
    ] {
        let text = repeat_rule_to_rrule(&rule).unwrap();
        assert_eq!(parse_rrule(&text), (rule, None));
    }
    assert_eq!(repeat_rule_to_rrule(&RepeatRule::NoRepeat), None);
    assert_eq!(repeat_rule_to_rrule(&RepeatRule::MonthlyNth(3, 4)).unwrap(), "FREQ=MONTHLY;BYDAY=3FR");
    assert_eq!(repeat_rule_to_rrule(&RepeatRule::WeeklyOn(vec![0, 2])).unwrap(), "FREQ=WEEKLY;BYDAY=MO,WE");
}

#[test]
fn rrule_reading_falls_back_safely() {
    assert_eq!(parse_rrule("FREQ=MONTHLY;BYDAY=9FR").0, RepeatRule::Monthly);
    assert_eq!(parse_rrule("FREQ=WEEKLY;BYDAY=XX").0, RepeatRule::Weekly);
    assert_eq!(parse_rrule("FREQ=HOURLY").0, RepeatRule::NoRepeat);
    assert_eq!(parse_rrule("FREQ=DAILY;INTERVAL=2").0, RepeatRule::NoRepeat);
    assert_eq!(parse_rrule("FREQ=DAILY;INTERVAL=1;UNTIL=20261231").1, Date::from_ymd_opt(2026, 12, 31));
    assert_eq!(parse_rrule_until("2026"), None);
    assert_eq!(parse_rrule_until("20261301"), None);
}

#[test]
fn weekday_codes_round_trip() {
    for w in 0u8..7 {
        assert_eq!(weekday_from_code(weekday_code(w)), Some(w));
    }
    assert_eq!(weekday_code(9), "WE");
    assert_eq!(weekday_from_code("mo"), None);
}

#[test]
fn text_values_escape_and_unescape() {
    assert_eq!(escape_text("a,b;c\nd\\e"), "a\\,b\\;c\\nd\\\\e");
    assert_eq!(unescape_text("a\\,b\\;c\\nd\\\\e"), "a,b;c\nd\\e");
    let s = "会议，地点;A,B\n第二行";
    assert_eq!(unescape_text(&escape_text(s)), s);
}

#[test]
fn cancelled_titles_in_both_languages() {
    assert!(title_marks_cancelled("  已取消：周会"));
    assert!(title_marks_cancelled("Cancelled: weekly"));
    assert!(title_marks_cancelled("CANCELED: weekly"));
    assert!(!title_marks_cancelled("周会已取消"));
}

#[test]
fn folded_lines_join_and_carriage_returns_go() {
    assert_eq!(unfold_lines("A\r\n B\r\nC\r\n\tD"), "AB\nCD");
    assert_eq!(unfold_lines(" lead\nx"), " lead\nx");
}

#[test]
fn durations_in_minutes() {
    assert_eq!(parse_duration_minutes("PT45M"), Some(45));
    assert_eq!(parse_duration_minutes(" PT1H30M "), Some(90));
    assert_eq!(parse_duration_minutes("PT30S"), Some(1));
    assert_eq!(parse_duration_minutes("P1D"), None);
    assert_eq!(parse_duration_minutes("PT0M"), None);
    assert_eq!(parse_duration_minutes("PTXM"), None);
}

#[test]
fn datetimes_with_and_without_time() {
    let (d, t, s) = parse_ics_datetime("20260905T093000").unwrap();
    assert_eq!(d, Date { year: 2026, month: 9, day: 5 });
    assert_eq!(t.as_deref(), Some("09:30"));
    assert_eq!(s, Some(DateTime { date: d, hour: 9, minute: 30, second: 0 }));
    let (d2, t2, s2) = parse_ics_datetime("20260905").unwrap();
    assert_eq!(d2, d);
    assert_eq!(t2, None);
    assert_eq!(s2, None);
    assert!(parse_ics_datetime("2026-09").is_none());
    let utc = parse_ics_datetime("20260905T093000Z").unwrap();
    assert!(utc.1.is_some());
}

#[test]
fn exports_a_calendar_that_reads_back() {
    let rule = RepeatRule::WeeklyOn(vec![1, 3]);
    let none = RepeatRule::NoRepeat;
    let events = [
        ExportEvent {
            uid: "one@rili".to_string(),
            title: "周会, 例行",
            date: Date { year: 2026, month: 9, day: 1 },
            time: Some("14:30"),
            note: "",
            repeat_rule: &rule,
        },
        ExportEvent {
            uid: "two@rili".to_string(),
            title: "假期",
            date: Date { year: 2026, month: 10, day: 1 },
            time: None,
            note: "第一行\n第二行",
            repeat_rule: &none,
        },
    ];
    let stamp = DateTime { date: Date { year: 2026, month: 8, day: 31 }, hour: 1, minute: 2, second: 3 };
    let text = export_ics_at("工作", &events, &stamp);
    assert!(text.starts_with("BEGIN:VCALENDAR\r\nVERSION:2.0\r\n"));
    assert!(text.contains("X-WR-CALNAME:工作\r\n"));
    assert!(text.contains("DTSTAMP:20260831T010203Z\r\n"));
    assert!(text.contains("DTSTART:20260901T143000\r\n"));
    assert!(text.contains("RRULE:FREQ=WEEKLY;BYDAY=TU,TH\r\n"));
    assert!(text.contains("DTSTART;VALUE=DATE:20261001\r\n"));
    assert!(text.ends_with("END:VCALENDAR\r\n"));
    let back = parse_ics(&text).unwrap();
    assert_eq!(back.len(), 2);
    assert_eq!(back[0].title, "周会, 例行");
    assert_eq!(back[0].time.as_deref(), Some("14:30"));
    assert_eq!(back[0].repeat_rule, rule);
    assert_eq!(back[1].note, "第一行\n第二行");
    assert_eq!(back[1].time, None);
}

#[test]
fn escaped_texts_read_back_unless_they_hold_backslashes() {
    for s in ["周会; 议程, 第二行\n完", "plain", "", ",;\n,;\n", "a,b;c"] {
        assert_eq!(rili::ics::unescape_text(&rili::ics::escape_text(s)), s);
    }
    assert_ne!(rili::ics::unescape_text(&rili::ics::escape_text("C:\\new")), "C:\\new");
}
