use chrono::Datelike;
use rili::date::Date;
use rili::db::{Event, EventOccurrence};
use rili::month_view::{iso_week_number, month_days};
use std::collections::{HashMap, HashSet};

fn event(id: i64, title: &str, time: Option<&str>, calendar_id: i64) -> Event {
    Event {
        id,
        title: title.to_string(),
        date: "2026-09-01".to_string(),
        time: time.map(|t| t.to_string()),
        duration_minutes: 60,
        note: String::new(),
        repeat_rule: "none".to_string(),
        reminder_offsets: String::new(),
        category: "event".to_string(),
        calendar_id,
        created_at: String::new(),
        updated_at: String::new(),
        source_kind: "local".to_string(),
    }
}

fn occ(id: i64, title: &str, day: &str, time: Option<&str>, calendar_id: i64) -> EventOccurrence {
    EventOccurrence { event: event(id, title, time, calendar_id), occurrence_date: day.to_string() }
}

#[test]
fn iso_weeks_match_chrono_around_year_boundaries() {
    for year in [1999, 2000, 2004, 2015, 2020, 2021, 2026, 2027] {
        for (m, d) in [(1, 1), (1, 2), (1, 3), (1, 4), (1, 7), (6, 15), (12, 27), (12, 28), (12, 29), (12, 30), (12, 31)] {
            let ours = iso_week_number(&Date::from_ymd_opt(year, m, d).unwrap());
            let theirs = chrono::NaiveDate::from_ymd_opt(year, m, d).unwrap().iso_week().week();
            assert_eq!(ours, theirs, "{year}-{m}-{d}");
        }
    }
}

#[test]
fn september_grid_starts_on_monday_before_the_first() {
    let today = Date::from_ymd_opt(2026, 9, 3).unwrap();
    let occurrences = vec![
        occ(1, "late", "2026-09-03", Some("18:00"), 1),
        occ(2, "early", "2026-09-03", Some("08:00"), 2),
        occ(3, "all day", "2026-09-03", None, 1),
        occ(4, "hidden", "2026-09-03", Some("07:00"), 9),
        occ(5, "next", "2026-09-04", Some("09:00"), 1),
    ];
    let visible: HashSet<i64> = [1, 2].into_iter().collect();
    let mut colors = HashMap::new();
    colors.insert(1, "#ff0000".to_string());
    let days = month_days(2026, 9, false, &occurrences, &visible, &colors, &today);
    assert_eq!(days.len(), 42);
    assert_eq!(days[0].date, "2026-08-31");
    assert!(!days[0].in_current_month);
    assert!(days[1].in_current_month);
    assert_eq!(days[1].day, 1);

    let thursday = &days[3];
    assert_eq!(thursday.date, "2026-09-03");
    assert!(thursday.is_today);
    assert!(thursday.has_events);
    let tags: Vec<(i64, &str, &str)> =
        thursday.event_tags.iter().map(|t| (t.id, t.title.as_str(), t.color.as_str())).collect();
    assert_eq!(tags, vec![(3, "all day", "#ff0000"), (2, "early", "#2e6be6")]);
    assert_eq!(thursday.extra_count, 1);
    assert_eq!(thursday.week_number, 36);
    assert!(days[5].is_weekend);
    assert!(!days[4].is_weekend);
    assert_eq!(days[4].event_tags.len(), 1);
    assert_eq!(days[4].extra_count, 0);

    let sunday_first = month_days(2026, 9, true, &occurrences, &visible, &colors, &today);
    assert_eq!(sunday_first[0].date, "2026-08-30");
    assert!(month_days(2026, 13, false, &occurrences, &visible, &colors, &today).is_empty());
}

#[test]
fn national_day_is_a_holiday_cell() {
    let today = Date::from_ymd_opt(2026, 10, 1).unwrap();
    let days = month_days(2026, 10, false, &Vec::new(), &HashSet::new(), &HashMap::new(), &today);
    let national = days.iter().find(|d| d.date == "2026-10-01").unwrap();
    assert!(national.is_holiday);
    assert!(!national.has_events);
    let makeup = days.iter().find(|d| d.date == "2026-10-10").unwrap();
    assert!(makeup.is_makeup_workday);
}
