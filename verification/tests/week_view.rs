use rili::week_layout::{layout_week_event_lanes, LaneEvent};
use rili::db::{Event, EventOccurrence};
use rili::week_layout::lane_event_of;

fn ev(start: i32, duration: i32, all_day: bool) -> LaneEvent {
    LaneEvent { start_minutes: start, duration_minutes: duration, all_day, lane: 0, lane_count: 1 }
}

#[test]
fn overlapping_events_sit_side_by_side() {
    let mut events = vec![
        ev(540, 60, false),
        ev(570, 60, false),
        ev(600, 30, false),
        ev(660, 30, false),
        ev(0, 1440, true),
    ];
    layout_week_event_lanes(&mut events);
    let lanes: Vec<(i32, i32)> = events.iter().map(|e| (e.lane, e.lane_count)).collect();
    assert_eq!(lanes, vec![(0, 2), (1, 2), (0, 2), (0, 1), (0, 1)]);
}

#[test]
fn lanes_follow_start_order_not_input_order() {
    let mut events = vec![ev(600, 60, false), ev(540, 90, false), ev(600, 0, false)];
    layout_week_event_lanes(&mut events);
    // 540 first (lane 0), then the two at 600 in input order: lanes 1 and 2.
    assert_eq!(events[1].lane, 0);
    assert_eq!(events[0].lane, 1);
    assert_eq!(events[2].lane, 2);
    assert!(events.iter().all(|e| e.lane_count == 3));
}

#[test]
fn back_to_back_events_share_a_lane() {
    let mut events = vec![ev(540, 60, false), ev(600, 60, false)];
    layout_week_event_lanes(&mut events);
    assert_eq!((events[0].lane, events[0].lane_count), (0, 1));
    assert_eq!((events[1].lane, events[1].lane_count), (0, 1));
}


fn occurrence(time: Option<&str>, duration: i64) -> EventOccurrence {
    EventOccurrence {
        event: Event {
            id: 1,
            title: "会".to_string(),
            date: "2026-09-07".to_string(),
            time: time.map(|t| t.to_string()),
            duration_minutes: duration,
            note: String::new(),
            repeat_rule: "none".to_string(),
            reminder_offsets: String::new(),
            category: "event".to_string(),
            calendar_id: 1,
            created_at: "x".to_string(),
            updated_at: "x".to_string(),
            source_kind: "local".to_string(),
        },
        occurrence_date: "2026-09-07".to_string(),
    }
}

#[test]
fn occurrences_become_week_view_slots() {
    let timed = lane_event_of(&occurrence(Some("09:30"), 5));
    assert_eq!((timed.start_minutes, timed.duration_minutes, timed.all_day), (570, 15, false));
    let long = lane_event_of(&occurrence(Some("14:00"), 90));
    assert_eq!((long.start_minutes, long.duration_minutes), (840, 90));
    let untimed = lane_event_of(&occurrence(None, 60));
    assert_eq!((untimed.start_minutes, untimed.duration_minutes, untimed.all_day), (0, 1440, true));
    let unreadable = lane_event_of(&occurrence(Some("上午"), 60));
    assert!(unreadable.all_day);
}
