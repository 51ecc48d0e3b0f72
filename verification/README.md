# rili

The core of a local-first desktop calendar (TimeHub), written in Verus: every function
in `src/` carries a `requires`/`ensures` contract that Verus proves.

## Layout

- `src/` — the verified library.
  - `date`, `date_calc`, `recurrence`, `holidays`, `lunar`, `almanac`: the calendar itself:
    day numbers, repeat rules and their occurrences, workday arithmetic, the Chinese
    lunisolar calendar.
  - `ics`, `xml_events`, `integrations`, `urls`: iCalendar export and import, reading
    CalDAV answers, and the rules for subscriptions. `ics::lemma_export_read_back` states
    that exported events read back as written.
  - `natural`, `event_timing`, `reminders`, `presentation`, `month_view`, `week_layout`,
    `dashboard`: quick-add sentences, reminders and what the views show.
  - `db`, `event_store`, `record_store`, `schedule_store`, `backup`: the SQLite store
    through `rusqlite`; the checks and the data handed to the database are verified,
    the calls themselves are trusted wrappers with their contracts stated.
- `tests/` — tests of the library, run against the real outside crates.
- `app/` — the command-line program: argument parsing, files, network, and the
  Windows start-up registry entry.

Outside calls (`chrono`, `rusqlite`, `url`, `quick-xml`, the two lunar calendar crates)
stand behind `#[verifier::external_body]` wrappers whose doc comments say what each
contract claims of the outside code.
