//! Core logic of the TimeHub desktop calendar: dates, recurrence rules,
//! iCalendar text, Chinese natural-language drafts and the small rules the
//! desktop shell applies to them.

pub mod text;
pub mod date;
pub mod recurrence;
pub mod lunar;
pub mod holidays;
pub mod date_calc;
pub mod ics;
pub mod natural;
pub mod event_timing;
pub mod error_reporter;
pub mod font_settings;
pub mod autostart;
pub mod reminders;
pub mod db;
pub mod daily_quote;
pub mod almanac;
pub mod integrations;
pub mod urls;
pub mod presentation;
pub mod week_layout;
pub mod backup;
pub mod event_store;
pub mod record_store;
pub mod month_view;
pub mod schedule_store;
pub mod dashboard;
pub mod xml_events;
