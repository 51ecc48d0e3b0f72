use rili::dashboard::{todo_board, upcoming_agenda, widget_countdowns, agenda_window};
use rili::date::Date;
use rili::db::{Event, EventOccurrence, Todo};
use rili::recurrence::{occurrences_in_range, RepeatRule};
use std::collections::HashSet;

fn day(y: i32, m: u32, d: u32) -> Date {
    Date::from_ymd_opt(y, m, d).unwrap()
}

fn event(id: i64, title: &str, date: &str, time: Option<&str>, category: &str, calendar_id: i64) -> Event {
    Event {
        id,
        title: title.to_string(),
        date: date.to_string(),
        time: time.map(|t| t.to_string()),
        duration_minutes: 60,
        note: String::new(),
        repeat_rule: "none".to_string(),
        reminder_offsets: String::new(),
        category: category.to_string(),
        calendar_id,
        created_at: String::new(),
        updated_at: String::new(),
        source_kind: "local".to_string(),
    }
}

fn todo(id: i64, title: &str, due: Option<&str>, important: bool, status: &str) -> Todo {
    Todo {
        id,
        title: title.to_string(),
        done: status == "done",
        due_date: due.map(|d| d.to_string()),
        priority: 0,
        important,
        status: status.to_string(),
        created_at: String::new(),
        updated_at: String::new(),
    }
}

#[test]
fn agenda_lists_visible_plain_events_with_day_words() {
    let today = day(2026, 9, 4);
    let (from, to) = agenda_window(&today).unwrap();
    assert_eq!(from, day(2026, 9, 5));
    assert_eq!(to, day(2026, 12, 3));
    let occs = vec![
        EventOccurrence { event: event(1, "周会", "2026-09-05", Some("09:30"), "event", 1), occurrence_date: "2026-09-05".to_string() },
        EventOccurrence { event: event(2, "隐藏", "2026-09-05", None, "event", 2), occurrence_date: "2026-09-05".to_string() },
        EventOccurrence { event: event(3, "生日", "2026-09-06", None, "birthday", 1), occurrence_date: "2026-09-06".to_string() },
        EventOccurrence { event: event(4, "体检", "2026-09-12", None, "event", 1), occurrence_date: "2026-09-12".to_string() },
    ];
    let visible: HashSet<i64> = [1].into_iter().collect();
    let agenda = upcoming_agenda(&occs, &visible, &today);
    let seen: Vec<(i64, String)> = agenda.iter().map(|a| (a.event_id, a.meta_text.clone())).collect();
    assert_eq!(seen, vec![(1, "明天 09:30".to_string()), (4, "9/12 全天".to_string())]);
    let many: Vec<EventOccurrence> = (0..20)
        .map(|i| EventOccurrence { event: event(i, "x", "2026-09-05", None, "event", 1), occurrence_date: "2026-09-05".to_string() })
        .collect();
    let agenda = upcoming_agenda(&many, &visible, &today);
    assert_eq!(agenda.len(), 16);
    assert_eq!(agenda[15].event_id, 15);
}

#[test]
fn countdown_cards_show_the_nearest_coming_ones_first() {
    let today = day(2026, 9, 4);
    let events = vec![
        event(5, "已过", "2026-09-01", None, "countdown", 1),
        event(4, "远", "2026-12-01", None, "countdown", 1),
        event(3, "近", "2026-09-10", None, "countdown", 1),
        event(2, "生日", "2026-09-05", None, "birthday", 1),
        event(1, "同日", "2026-09-10", None, "countdown", 1),
        event(6, "坏日期", "明天", None, "countdown", 1),
    ];
    let cards = widget_countdowns(&events, &today);
    let seen: Vec<(i64, i64)> = cards.iter().map(|c| (c.id, c.days)).collect();
    assert_eq!(seen, vec![(1, 6), (3, 6), (4, 88)]);
    let only_past = widget_countdowns(&vec![event(5, "已过", "2026-09-01", None, "countdown", 1)], &today);
    assert_eq!(only_past.len(), 1);
    assert_eq!(only_past[0].days, -3);
}

#[test]
fn todo_board_splits_columns_and_quadrants() {
    let today = day(2026, 9, 4);
    let todos = vec![
        todo(1, "交报告", Some("2026-09-05"), true, "todo"),
        todo(2, "读书", None, true, "doing"),
        todo(3, "回邮件", Some("2026-09-01"), false, "todo"),
        todo(4, "买菜", None, false, "todo"),
        todo(5, "已完成", Some("2026-09-04"), true, "done"),
    ];
    let board = todo_board(&todos, &today);
    let ids = |v: &Vec<rili::dashboard::BoardItem>| v.iter().map(|b| b.id).collect::<Vec<_>>();
    assert_eq!(ids(&board.todo), vec![1, 3, 4]);
    assert_eq!(ids(&board.doing), vec![2]);
    assert_eq!(ids(&board.done), vec![5]);
    assert_eq!(ids(&board.urgent_important), vec![1]);
    assert_eq!(ids(&board.not_urgent_important), vec![2]);
    assert_eq!(ids(&board.urgent_not_important), vec![3]);
    assert_eq!(ids(&board.not_urgent_not_important), vec![4]);
    assert_eq!(board.todo[1].due_text, "已逾期 2026-09-01");
    assert!(board.todo[0].is_urgent);
}

#[test]
fn nth_weekday_rules_outside_the_usual_range_expand_without_failing() {
    let base = day(2026, 1, 1);
    assert!(occurrences_in_range(base, RepeatRule::MonthlyNth(0, 2), day(2026, 1, 1), day(2026, 12, 31)).is_empty());
    assert!(occurrences_in_range(base, RepeatRule::MonthlyNth(6, 2), day(2026, 1, 1), day(2026, 12, 31)).is_empty());
    let mondays = occurrences_in_range(base, RepeatRule::MonthlyNth(1, 7), day(2026, 1, 1), day(2026, 2, 28));
    assert_eq!(mondays, vec![day(2026, 1, 5), day(2026, 2, 2)]);
}
