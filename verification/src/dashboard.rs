//! What the desktop's side panels show, computed from what the store returns: the
//! agenda of the coming days, the countdown cards and the todo board with its four
//! quadrants.

use crate::date::{chrono_parse_iso_date, max_day_number, parse_iso_date, Date};
use crate::db::{copy_string, Event, EventOccurrence, Todo};
use crate::presentation::{due_text_spec, is_urgent_spec, todo_due_text, todo_is_urgent};
use crate::text::{append_all, append_str, chars_of, eq_str, string_from_chars};
use vstd::prelude::*;

verus! {

// ------------------------------------------------------------------
// The todo board
// ------------------------------------------------------------------

/// A todo on the board: its due date in words and whether it is urgent.
pub struct BoardItem {
    pub id: i64,
    pub title: String,
    pub due_text: String,
    pub is_urgent: bool,
    pub status: String,
}

pub open spec fn opt_text(o: Option<String>) -> Option<Seq<char>> {
    match o {
        Some(s) => Some(s@),
        None => None,
    }
}

/// A board item as id, title, due text, urgency and column.
pub open spec fn board_view(b: BoardItem) -> (i64, Seq<char>, Seq<char>, bool, Seq<char>) {
    (b.id, b.title@, b.due_text@, b.is_urgent, b.status@)
}

/// What the board shows of a todo.
pub open spec fn board_item_spec(t: Todo, today: Date) -> (i64, Seq<char>, Seq<char>, bool, Seq<char>) {
    (t.id, t.title@, due_text_spec(opt_text(t.due_date), today), is_urgent_spec(opt_text(t.due_date), today), t.status@)
}

/// The columns of the board and the four quadrants of what is not done.
#[derive(Clone, Copy, PartialEq, Eq, Structural)]
pub enum Lane {
    Todo,
    Doing,
    Done,
    UrgentImportant,
    NotUrgentImportant,
    UrgentNotImportant,
    NotUrgentNotImportant,
}

/// Whether a todo belongs in a lane: a column by its status; a quadrant, for a todo that is
/// not done, by its important flag and whether it is due by tomorrow.
pub open spec fn in_lane(t: Todo, lane: Lane, today: Date) -> bool {
    let urgent = is_urgent_spec(opt_text(t.due_date), today);
    let open = t.status@ != "done"@;
    match lane {
        Lane::Todo => t.status@ == "todo"@,
        Lane::Doing => t.status@ == "doing"@,
        Lane::Done => t.status@ == "done"@,
        Lane::UrgentImportant => open && t.important && urgent,
        Lane::NotUrgentImportant => open && t.important && !urgent,
        Lane::UrgentNotImportant => open && !t.important && urgent,
        Lane::NotUrgentNotImportant => open && !t.important && !urgent,
    }
}

/// The board items of a lane, in the order of the todos.
pub open spec fn lane_spec(todos: Seq<Todo>, lane: Lane, today: Date) -> Seq<(i64, Seq<char>, Seq<char>, bool, Seq<char>)>
    decreases todos.len(),
{
    if todos.len() == 0 {
        seq![]
    } else {
        let rest = lane_spec(todos.drop_last(), lane, today);
        if in_lane(todos.last(), lane, today) {
            rest.push(board_item_spec(todos.last(), today))
        } else {
            rest
        }
    }
}

pub open spec fn board_views(v: Seq<BoardItem>) -> Seq<(i64, Seq<char>, Seq<char>, bool, Seq<char>)> {
    Seq::new(v.len(), |i: int| board_view(v[i]))
}

fn opt_str(o: &Option<String>) -> (r: Option<&str>)
    ensures
        crate::presentation::opt_str_view(r) == opt_text(*o),
{
    match o {
        Some(s) => Some(s.as_str()),
        None => None,
    }
}

fn todo_in_lane(t: &Todo, lane: Lane, today: &Date) -> (b: bool)
    requires
        today.wf(),
        today.dn() < max_day_number(),
    ensures
        b == in_lane(*t, lane, *today),
{
    let status = chars_of(t.status.as_str());
    let urgent = todo_is_urgent(opt_str(&t.due_date), today);
    let open = !eq_str(&status, "done");
    match lane {
        Lane::Todo => eq_str(&status, "todo"),
        Lane::Doing => eq_str(&status, "doing"),
        Lane::Done => eq_str(&status, "done"),
        Lane::UrgentImportant => open && t.important && urgent,
        Lane::NotUrgentImportant => open && t.important && !urgent,
        Lane::UrgentNotImportant => open && !t.important && urgent,
        Lane::NotUrgentNotImportant => open && !t.important && !urgent,
    }
}

fn board_item(t: &Todo, today: &Date) -> (b: BoardItem)
    requires
        today.wf(),
        today.dn() < max_day_number(),
    ensures
        board_view(b) == board_item_spec(*t, *today),
{
    BoardItem {
        id: t.id,
        title: copy_string(&t.title),
        due_text: todo_due_text(opt_str(&t.due_date), today),
        is_urgent: todo_is_urgent(opt_str(&t.due_date), today),
        status: copy_string(&t.status),
    }
}

/// The board items of one lane, in the order of the todos.
pub fn lane_items(todos: &Vec<Todo>, lane: Lane, today: &Date) -> (r: Vec<BoardItem>)
    requires
        today.wf(),
        today.dn() < max_day_number(),
    ensures
        board_views(r@) == lane_spec(todos@, lane, *today),
{
    let mut out: Vec<BoardItem> = Vec::new();
    let mut i: usize = 0;
    while i < todos.len()
        invariant
            i <= todos.len(),
            today.wf(),
            today.dn() < max_day_number(),
            board_views(out@) == lane_spec(todos@.take(i as int), lane, *today),
        decreases todos.len() - i,
    {
        let ghost before = out@;
        proof {
            assert(todos@.take(i + 1).drop_last() =~= todos@.take(i as int));
            assert(todos@.take(i + 1).last() == todos@[i as int]);
        }
        if todo_in_lane(&todos[i], lane, today) {
            let item = board_item(&todos[i], today);
            out.push(item);
            assert(board_views(out@) =~= board_views(before).push(board_view(item)));
        }
        i = i + 1;
    }
    assert(todos@.take(todos.len() as int) =~= todos@);
    out
}

/// The todo board: the `todo`, `doing` and `done` columns, and the four quadrants of the
/// todos that are not done (important or not, due by tomorrow or not).
pub struct TodoBoard {
    pub todo: Vec<BoardItem>,
    pub doing: Vec<BoardItem>,
    pub done: Vec<BoardItem>,
    pub urgent_important: Vec<BoardItem>,
    pub not_urgent_important: Vec<BoardItem>,
    pub urgent_not_important: Vec<BoardItem>,
    pub not_urgent_not_important: Vec<BoardItem>,
}

/// Every lane of the board, each in the order of the todos (see `in_lane`).
pub fn todo_board(todos: &Vec<Todo>, today: &Date) -> (r: TodoBoard)
    requires
        today.wf(),
        today.dn() < max_day_number(),
    ensures
        board_views(r.todo@) == lane_spec(todos@, Lane::Todo, *today),
        board_views(r.doing@) == lane_spec(todos@, Lane::Doing, *today),
        board_views(r.done@) == lane_spec(todos@, Lane::Done, *today),
        board_views(r.urgent_important@) == lane_spec(todos@, Lane::UrgentImportant, *today),
        board_views(r.not_urgent_important@) == lane_spec(todos@, Lane::NotUrgentImportant, *today),
        board_views(r.urgent_not_important@) == lane_spec(todos@, Lane::UrgentNotImportant, *today),
        board_views(r.not_urgent_not_important@) == lane_spec(todos@, Lane::NotUrgentNotImportant, *today),
{
    TodoBoard {
        todo: lane_items(todos, Lane::Todo, today),
        doing: lane_items(todos, Lane::Doing, today),
        done: lane_items(todos, Lane::Done, today),
        urgent_important: lane_items(todos, Lane::UrgentImportant, today),
        not_urgent_important: lane_items(todos, Lane::NotUrgentImportant, today),
        urgent_not_important: lane_items(todos, Lane::UrgentNotImportant, today),
        not_urgent_not_important: lane_items(todos, Lane::NotUrgentNotImportant, today),
    }
}

// ------------------------------------------------------------------
// The agenda of the coming days
// ------------------------------------------------------------------

/// How many occurrences the agenda lists.
pub const AGENDA_LENGTH: usize = 16;

/// How many days ahead the agenda looks.
pub const AGENDA_DAYS: i64 = 90;

/// An occurrence in the agenda, with its day and time in words (`明天 09:30`, `9/5 全天`).
pub struct AgendaItem {
    pub event_id: i64,
    pub title: String,
    pub occurrence_date: String,
    pub meta_text: String,
}

pub open spec fn agenda_view(a: AgendaItem) -> (i64, Seq<char>, Seq<char>, Seq<char>) {
    (a.event_id, a.title@, a.occurrence_date@, a.meta_text@)
}

pub open spec fn agenda_views(v: Seq<AgendaItem>) -> Seq<(i64, Seq<char>, Seq<char>, Seq<char>)> {
    Seq::new(v.len(), |i: int| agenda_view(v[i]))
}

/// An occurrence the agenda shows: a plain event (not a birthday, anniversary or
/// countdown) in a visible calendar.
pub open spec fn agenda_keeps(o: EventOccurrence, visible: Set<i64>) -> bool {
    visible.contains(o.event.calendar_id) && o.event.category@ == "event"@
}

/// The day of an occurrence in words: `明天` for tomorrow (and for a day that does not
/// read as a date), otherwise `month/day`.
pub open spec fn day_label(occurrence_date: Seq<char>, today: Date) -> Seq<char> {
    match chrono_parse_iso_date(occurrence_date) {
        Some(d) => if d.dn() == today.dn() + 1 {
            "明天"@
        } else {
            crate::text::decimal(d.month as nat) + "/"@ + crate::text::decimal(d.day as nat)
        },
        None => "明天"@,
    }
}

/// What the agenda shows of an occurrence: the day in words, then its time or `全天`.
pub open spec fn agenda_item_spec(o: EventOccurrence, today: Date) -> (i64, Seq<char>, Seq<char>, Seq<char>) {
    (o.event.id, o.event.title@, o.occurrence_date@, day_label(o.occurrence_date@, today) + " "@ + match o.event.time {
        Some(t) => t@,
        None => "全天"@,
    })
}

/// The agenda items of the occurrences it keeps, in their order.
pub open spec fn agenda_spec(occs: Seq<EventOccurrence>, visible: Set<i64>, today: Date) -> Seq<(i64, Seq<char>, Seq<char>, Seq<char>)>
    decreases occs.len(),
{
    if occs.len() == 0 {
        seq![]
    } else {
        let rest = agenda_spec(occs.drop_last(), visible, today);
        if agenda_keeps(occs.last(), visible) {
            rest.push(agenda_item_spec(occs.last(), today))
        } else {
            rest
        }
    }
}

/// At most the first `n` items.
pub open spec fn first_n<T>(s: Seq<T>, n: int) -> Seq<T> {
    if s.len() <= n {
        s
    } else {
        s.take(n)
    }
}

/// The days the agenda covers: from tomorrow to 90 days after today; `None` when that
/// passes the last supported day.
pub fn agenda_window(today: &Date) -> (r: Option<(Date, Date)>)
    requires
        today.wf(),
    ensures
        r is Some <==> today.dn() + AGENDA_DAYS <= max_day_number(),
        r matches Some((a, b)) ==> a.wf() && b.wf() && a.dn() == today.dn() + 1 && b.dn() == today.dn() + AGENDA_DAYS,
{
    proof {
        crate::date::lemma_dn_range(*today);
    }
    let end = today.add_days(AGENDA_DAYS)?;
    match today.add_days(1) {
        Some(start) => Some((start, end)),
        None => None,
    }
}

fn day_label_text(occurrence_date: &str, today: &Date) -> (r: Vec<char>)
    requires
        today.wf(),
    ensures
        r@ == day_label(occurrence_date@, *today),
{
    match parse_iso_date(occurrence_date) {
        Some(d) => {
            proof {
                crate::date::lemma_dn_range(d);
                crate::date::lemma_dn_range(*today);
            }
            if d.day_number() == today.day_number() + 1 {
                chars_of("明天")
            } else {
                let mut v = crate::text::decimal_i64(d.month as i64);
                append_str(&mut v, "/");
                let day = crate::text::decimal_i64(d.day as i64);
                append_all(&mut v, &day);
                v
            }
        },
        None => chars_of("明天"),
    }
}

fn agenda_item(o: &EventOccurrence, today: &Date) -> (a: AgendaItem)
    requires
        today.wf(),
    ensures
        agenda_view(a) == agenda_item_spec(*o, *today),
{
    let mut meta = day_label_text(o.occurrence_date.as_str(), today);
    append_str(&mut meta, " ");
    match &o.event.time {
        Some(t) => append_str(&mut meta, t.as_str()),
        None => append_str(&mut meta, "全天"),
    }
    AgendaItem {
        event_id: o.event.id,
        title: copy_string(&o.event.title),
        occurrence_date: copy_string(&o.occurrence_date),
        meta_text: string_from_chars(&meta),
    }
}

/// The agenda of the coming days: of the occurrences given (those from tomorrow to 90 days
/// on, see `agenda_window`), the first 16 plain events in visible calendars, each with its
/// day and time in words.
pub fn upcoming_agenda(occs: &Vec<EventOccurrence>, visible: &std::collections::HashSet<i64>, today: &Date) -> (r: Vec<AgendaItem>)
    requires
        today.wf(),
    ensures
        agenda_views(r@) == first_n(agenda_spec(occs@, visible@, *today), AGENDA_LENGTH as int),
{
    broadcast use vstd::std_specs::hash::group_hash_axioms;

    let mut out: Vec<AgendaItem> = Vec::new();
    let mut i: usize = 0;
    while i < occs.len()
        invariant
            i <= occs.len(),
            today.wf(),
            agenda_views(out@) == first_n(agenda_spec(occs@.take(i as int), visible@, *today), AGENDA_LENGTH as int),
        decreases occs.len() - i,
    {
        let ghost before = out@;
        let ghost all = agenda_spec(occs@.take(i as int), visible@, *today);
        proof {
            assert(occs@.take(i + 1).drop_last() =~= occs@.take(i as int));
            assert(occs@.take(i + 1).last() == occs@[i as int]);
        }
        let o = &occs[i];
        let keep = visible.contains(&o.event.calendar_id) && eq_str(&chars_of(o.event.category.as_str()), "event");
        if keep {
            if out.len() < AGENDA_LENGTH {
                let item = agenda_item(o, today);
                out.push(item);
                assert(agenda_views(out@) =~= agenda_views(before).push(agenda_view(item)));
                assert(all.len() <= AGENDA_LENGTH);
                assert(all.push(agenda_item_spec(*o, *today)) =~= first_n(all.push(agenda_item_spec(*o, *today)), AGENDA_LENGTH as int));
            } else {
                assert(first_n(all.push(agenda_item_spec(*o, *today)), AGENDA_LENGTH as int) =~= first_n(all, AGENDA_LENGTH as int));
            }
        }
        i = i + 1;
    }
    assert(occs@.take(occs.len() as int) =~= occs@);
    out
}

// ------------------------------------------------------------------
// Countdown cards
// ------------------------------------------------------------------

/// How many countdown cards the widget shows.
pub const COUNTDOWN_CARDS: usize = 3;

/// A countdown card: the event, how many days remain (negative once passed) and its day.
pub struct CountdownView {
    pub id: i64,
    pub title: String,
    pub days: i64,
    pub date_text: String,
}

pub open spec fn cd_view(v: CountdownView) -> (i64, Seq<char>, int, Seq<char>) {
    (v.id, v.title@, v.days as int, v.date_text@)
}

pub open spec fn cd_views(v: Seq<CountdownView>) -> Seq<(i64, Seq<char>, int, Seq<char>)> {
    Seq::new(v.len(), |i: int| cd_view(v[i]))
}

/// The card of an event: only countdowns whose day reads as a date have one.
pub open spec fn countdown_of(e: Event, today: Date) -> Option<(i64, Seq<char>, int, Seq<char>)> {
    if e.category@ == "countdown"@ {
        match chrono_parse_iso_date(e.date@) {
            Some(d) => Some((e.id, e.title@, d.dn() - today.dn(), e.date@)),
            None => None,
        }
    } else {
        None
    }
}

/// The cards of the events, in their order.
pub open spec fn countdown_cands(events: Seq<Event>, today: Date) -> Seq<(i64, Seq<char>, int, Seq<char>)>
    decreases events.len(),
{
    if events.len() == 0 {
        seq![]
    } else {
        let rest = countdown_cands(events.drop_last(), today);
        match countdown_of(events.last(), today) {
            Some(c) => rest.push(c),
            None => rest,
        }
    }
}

/// Card `a` sorts before card `b` by (passed, days, id): coming ones first, the nearest
/// first, then by id.
pub open spec fn cd_key_lt(a: (i64, Seq<char>, int, Seq<char>), b: (i64, Seq<char>, int, Seq<char>)) -> bool {
    let (na, nb) = (a.2 < 0, b.2 < 0);
    (!na && nb) || (na == nb && (a.2 < b.2 || (a.2 == b.2 && a.0 < b.0)))
}

/// Card `i` comes before card `j` in a stable sort by that key.
pub open spec fn cd_before(c: Seq<(i64, Seq<char>, int, Seq<char>)>, i: int, j: int) -> bool {
    cd_key_lt(c[i], c[j]) || (!cd_key_lt(c[j], c[i]) && i < j)
}

/// `r` is the first `min(n, c.len())` cards of `c` in the sorted order: cards at positions
/// `p`, each before the next, and every card not chosen after all that are.
pub open spec fn first_sorted(c: Seq<(i64, Seq<char>, int, Seq<char>)>, p: Seq<int>, r: Seq<(i64, Seq<char>, int, Seq<char>)>, n: int) -> bool {
    &&& p.len() == r.len()
    &&& r.len() == (if c.len() < n { c.len() as int } else { n })
    &&& forall|k: int| 0 <= k < p.len() ==> 0 <= #[trigger] p[k] < c.len() && r[k] == c[p[k]]
    &&& forall|k: int, l: int| 0 <= k < l < p.len() ==> cd_before(c, #[trigger] p[k], #[trigger] p[l])
    &&& forall|j: int, k: int| 0 <= j < c.len() && 0 <= k < p.len() && !p.contains(j) ==> #[trigger] cd_before(c, p[k], j)
}

fn copy_view(v: &CountdownView) -> (r: CountdownView)
    ensures
        cd_view(r) == cd_view(*v),
{
    CountdownView { id: v.id, title: copy_string(&v.title), days: v.days, date_text: copy_string(&v.date_text) }
}

/// The countdown cards of the events, in their order.
fn countdown_candidates(events: &Vec<Event>, today: &Date) -> (r: Vec<CountdownView>)
    requires
        today.wf(),
    ensures
        cd_views(r@) == countdown_cands(events@, *today),
{
    let mut out: Vec<CountdownView> = Vec::new();
    let mut i: usize = 0;
    while i < events.len()
        invariant
            i <= events.len(),
            today.wf(),
            cd_views(out@) == countdown_cands(events@.take(i as int), *today),
        decreases events.len() - i,
    {
        let ghost before = out@;
        proof {
            assert(events@.take(i + 1).drop_last() =~= events@.take(i as int));
            assert(events@.take(i + 1).last() == events@[i as int]);
        }
        let e = &events[i];
        if eq_str(&chars_of(e.category.as_str()), "countdown") {
            match parse_iso_date(e.date.as_str()) {
                Some(d) => {
                    proof {
                        crate::date::lemma_dn_range(d);
                        crate::date::lemma_dn_range(*today);
                    }
                    let v = CountdownView {
                        id: e.id,
                        title: copy_string(&e.title),
                        days: d.day_number() - today.day_number(),
                        date_text: copy_string(&e.date),
                    };
                    out.push(v);
                    assert(cd_views(out@) =~= cd_views(before).push(cd_view(v)));
                },
                None => {},
            }
        }
        i = i + 1;
    }
    assert(events@.take(events.len() as int) =~= events@);
    out
}

fn before_exec(c: &Vec<CountdownView>, i: usize, j: usize) -> (b: bool)
    requires
        i < c.len(),
        j < c.len(),
    ensures
        b == cd_before(cd_views(c@), i as int, j as int),
{
    let a = &c[i];
    let b = &c[j];
    let na = a.days < 0;
    let nb = b.days < 0;
    let lt_ab = (!na && nb) || (na == nb && (a.days < b.days || (a.days == b.days && a.id < b.id)));
    let lt_ba = (!nb && na) || (na == nb && (b.days < a.days || (a.days == b.days && b.id < a.id)));
    proof {
        assert(cd_views(c@)[i as int] == cd_view(c@[i as int]));
        assert(cd_views(c@)[j as int] == cd_view(c@[j as int]));
    }
    lt_ab || (!lt_ba && i < j)
}

/// A card that may be chosen next: any when none is chosen yet, else one after the last
/// chosen.
pub open spec fn eligible(c: Seq<(i64, Seq<char>, int, Seq<char>)>, picks: Seq<usize>, k: int) -> bool {
    picks.len() == 0 || cd_before(c, picks[picks.len() - 1] as int, k)
}

/// Card order is a strict total order on positions.
proof fn lemma_cd_order(c: Seq<(i64, Seq<char>, int, Seq<char>)>, i: int, j: int, k: int)
    ensures
        !cd_before(c, i, i),
        i != j ==> (cd_before(c, i, j) || cd_before(c, j, i)),
        !(cd_before(c, i, j) && cd_before(c, j, i)),
        cd_before(c, i, j) && cd_before(c, j, k) ==> cd_before(c, i, k),
{
}

/// The countdown widget: of the countdown events whose day reads as a date, the first
/// three by (passed, days left, id), events with equal keys in the order given.
pub fn widget_countdowns(events: &Vec<Event>, today: &Date) -> (r: Vec<CountdownView>)
    requires
        today.wf(),
    ensures
        exists|p: Seq<int>| first_sorted(countdown_cands(events@, *today), p, cd_views(r@), COUNTDOWN_CARDS as int),
{
    let cands = countdown_candidates(events, today);
    let ghost c = cd_views(cands@);
    let n = cands.len();
    let mut picks: Vec<usize> = Vec::new();
    loop
        invariant
            c == cd_views(cands@),
            c.len() == n,
            picks.len() <= COUNTDOWN_CARDS,
            forall|k: int| 0 <= k < picks.len() ==> (#[trigger] picks@[k]) < n,
            forall|k: int, l: int| 0 <= k < l < picks.len() ==> cd_before(c, #[trigger] picks@[k] as int, #[trigger] picks@[l] as int),
            forall|j: int, k: int| 0 <= j < n && 0 <= k < picks.len() && !picks@.contains(j as usize)
                ==> #[trigger] cd_before(c, picks@[k] as int, j),
        ensures
            picks.len() == (if n < COUNTDOWN_CARDS { n } else { COUNTDOWN_CARDS }),
            forall|k: int| 0 <= k < picks.len() ==> (#[trigger] picks@[k]) < n,
            forall|k: int, l: int| 0 <= k < l < picks.len() ==> cd_before(c, #[trigger] picks@[k] as int, #[trigger] picks@[l] as int),
            forall|j: int, k: int| 0 <= j < n && 0 <= k < picks.len() && !picks@.contains(j as usize)
                ==> #[trigger] cd_before(c, picks@[k] as int, j),
        decreases COUNTDOWN_CARDS - picks.len(),
    {
        if picks.len() >= COUNTDOWN_CARDS {
            proof {
                lemma_cd_order(c, picks@[0] as int, picks@[1] as int, 0);
                lemma_cd_order(c, picks@[0] as int, picks@[2] as int, 0);
                lemma_cd_order(c, picks@[1] as int, picks@[2] as int, 0);
                assert(picks@[0] != picks@[1] && picks@[0] != picks@[2] && picks@[1] != picks@[2]);
            }
            break;
        }
        let m = picks.len();
        let mut best: Option<usize> = None;
        let mut j: usize = 0;
        while j < n
            invariant
                j <= n,
                m == picks.len(),
                m < COUNTDOWN_CARDS,
                c == cd_views(cands@),
                c.len() == n,
                forall|k: int| 0 <= k < picks.len() ==> (#[trigger] picks@[k]) < n,
                match best {
                    Some(b) => b < j && eligible(c, picks@, b as int) && forall|k: int|
                        0 <= k < j && #[trigger] eligible(c, picks@, k) ==> k == b || cd_before(c, b as int, k),
                    None => forall|k: int| 0 <= k < j ==> !#[trigger] eligible(c, picks@, k),
                },
            decreases n - j,
        {
            let may_pick = m == 0 || before_exec(&cands, picks[m - 1], j);
            if may_pick {
                match best {
                    None => {
                        best = Some(j);
                    },
                    Some(b) => {
                        if before_exec(&cands, j, b) {
                            proof {
                                assert forall|k: int| 0 <= k < j + 1 && #[trigger] eligible(c, picks@, k) implies k == j || cd_before(c, j as int, k) by {
                                    lemma_cd_order(c, j as int, b as int, k);
                                }
                            }
                            best = Some(j);
                        }
                        else {
                            proof {
                                lemma_cd_order(c, j as int, b as int, j as int);
                            }
                        }
                    },
                }
            }
            j = j + 1;
        }
        match best {
            None => {
                proof {
                    // Every position is chosen already, so there are at most `m` of them.
                    if n > m {
                        assert(!eligible(c, picks@, 0));
                        if m == 0 {
                            assert(eligible(c, picks@, 0));
                        }
                        if !picks@.contains(0usize) {
                            assert(cd_before(c, picks@[m - 1] as int, 0));
                        }
                        if m >= 1 && !picks@.contains(1usize) {
                            assert(!eligible(c, picks@, 1));
                            assert(cd_before(c, picks@[m - 1] as int, 1));
                        }
                        if m >= 2 && !picks@.contains(2usize) {
                            assert(!eligible(c, picks@, 2));
                            assert(cd_before(c, picks@[m - 1] as int, 2));
                        }
                        assert forall|k: int, l: int| 0 <= k < l < m implies picks@[k] != picks@[l] by {
                            lemma_cd_order(c, picks@[k] as int, picks@[l] as int, 0);
                        }
                        assert(picks@.contains(0usize));
                        assert(picks@.contains(1usize) || m == 0);
                        if m == 2 {
                            assert(picks@.contains(1usize));
                            assert(picks@.contains(2usize));
                            assert(picks@[0] != picks@[1]);
                        }
                        assert(false);
                    }
                    if m == 2 {
                        lemma_cd_order(c, picks@[0] as int, picks@[1] as int, 0);
                        assert(picks@[0] != picks@[1]);
                    }
                    if m >= 1 {
                        assert(picks@[0] < n);
                    }
                }
                break;
            },
            Some(b) => {
                let ghost old_picks = picks@;
                proof {
                    assert(!old_picks.contains(b)) by {
                        if old_picks.contains(b) {
                            let k = choose|k: int| 0 <= k < old_picks.len() && old_picks[k] == b;
                            if k < m - 1 {
                                lemma_cd_order(c, old_picks[k] as int, old_picks[m - 1] as int, b as int);
                            } else {
                                lemma_cd_order(c, b as int, b as int, b as int);
                            }
                        }
                    }
                }
                picks.push(b);
                proof {
                    assert forall|k: int, l: int| 0 <= k < l < picks.len() implies cd_before(c, #[trigger] picks@[k] as int, #[trigger] picks@[l] as int) by {
                        if l == m {
                            if k < m - 1 {
                                lemma_cd_order(c, old_picks[k] as int, old_picks[m - 1] as int, b as int);
                            } else if m > 0 {
                                assert(picks@[k] == old_picks[m - 1]);
                            } else {
                                assert(old_picks[k] == picks@[k]);
                            }
                            assert(cd_before(c, old_picks[k] as int, b as int)) by {
                                if k < m - 1 {
                                    assert(cd_before(c, old_picks[k] as int, old_picks[m - 1] as int));
                                    lemma_cd_order(c, old_picks[k] as int, old_picks[m - 1] as int, b as int);
                                } else {
                                    assert(!old_picks.contains(b as usize));
                                    assert(cd_before(c, old_picks[k] as int, b as int));
                                }
                            }
                        } else {
                            assert(picks@[k] == old_picks[k] && picks@[l] == old_picks[l]);
                        }
                    }
                    assert forall|x: int, k: int| 0 <= x < n && 0 <= k < picks.len() && !picks@.contains(x as usize) implies #[trigger] cd_before(c, picks@[k] as int, x) by {
                        assert(!old_picks.contains(x as usize)) by {
                            if old_picks.contains(x as usize) {
                                let kk = choose|kk: int| 0 <= kk < old_picks.len() && old_picks[kk] == x as usize;
                                assert(picks@[kk] == x as usize);
                            }
                        }
                        assert(x != b as int) by {
                            assert(picks@[m as int] == b);
                        }
                        if m > 0 {
                            assert(cd_before(c, old_picks[m - 1] as int, x));
                        }
                        assert(eligible(c, old_picks, x));
                        assert(x == b as int || cd_before(c, b as int, x));
                        if k < m {
                            assert(picks@[k] == old_picks[k]);
                            assert(cd_before(c, old_picks[k] as int, x));
                        } else {
                            assert(picks@[k] == b);
                        }
                    }
                }
            },
        }
    }
    let mut out: Vec<CountdownView> = Vec::new();
    let mut i: usize = 0;
    while i < picks.len()
        invariant
            i <= picks.len(),
            c == cd_views(cands@),
            forall|k: int| 0 <= k < picks.len() ==> (#[trigger] picks@[k]) < n,
            n == cands.len(),
            out@.len() == i,
            forall|k: int| 0 <= k < i ==> cd_view(#[trigger] out@[k]) == c[picks@[k] as int],
        decreases picks.len() - i,
    {
        out.push(copy_view(&cands[picks[i]]));
        i = i + 1;
    }
    let ghost p = Seq::new(picks@.len(), |k: int| picks@[k] as int);
    proof {
        assert forall|j: int| 0 <= j < n && !p.contains(j) implies !picks@.contains(j as usize) by {
            if picks@.contains(j as usize) {
                let k = choose|k: int| 0 <= k < picks@.len() && picks@[k] == j as usize;
                assert(p[k] == j);
            }
        }
        assert(first_sorted(c, p, cd_views(out@), COUNTDOWN_CARDS as int));
    }
    out
}

// ------------------------------------------------------------------
// Connection status
// ------------------------------------------------------------------

/// How a subscription is shown: failed with its error (addresses hidden), synced with the
/// time of the last sync, or waiting for its first sync.
pub open spec fn subscription_status_spec(last_error: Option<Seq<char>>, last_sync: Option<Seq<char>>) -> (Seq<char>, Seq<char>) {
    match last_error {
        Some(e) => ("同步失败"@, crate::integrations::safe_error_text(e)),
        None => match last_sync {
            Some(t) => ("已同步"@, "上次同步 "@ + t),
            None => ("待同步"@, "已保存，等待首次同步"@),
        },
    }
}

/// The status and detail line of a subscription (see `subscription_status_spec`).
pub fn subscription_status(last_error: &Option<String>, last_sync: &Option<String>) -> (r: (String, String))
    ensures
        (r.0@, r.1@) == subscription_status_spec(
            match last_error {
                Some(e) => Some(e@),
                None => None,
            },
            match last_sync {
                Some(t) => Some(t@),
                None => None,
            },
        ),
{
    match last_error {
        Some(e) => ("同步失败".to_string(), crate::integrations::safe_error(e.as_str())),
        None => match last_sync {
            Some(t) => {
                let mut d = chars_of("上次同步 ");
                append_str(&mut d, t.as_str());
                ("已同步".to_string(), string_from_chars(&d))
            },
            None => ("待同步".to_string(), "已保存，等待首次同步".to_string()),
        },
    }
}

/// The status bar's summary of the connections: local mode without any, else the failures,
/// else those waiting for a first sync, else that all synced.
pub open spec fn connections_summary_spec(total: nat, failures: nat, pending: nat) -> Seq<char> {
    if total == 0 {
        "本地模式"@
    } else if failures > 0 {
        crate::text::decimal(failures) + " 个连接同步失败 · 工具中可查看详情"@
    } else if pending > 0 {
        crate::text::decimal(pending) + " 个连接待同步"@
    } else {
        crate::text::decimal(total) + " 个连接最近同步成功"@
    }
}

/// The summary of `connections_summary_spec` for the subscriptions, each given by whether it
/// failed and whether it ever synced.
pub fn connections_summary(failed: &Vec<bool>, synced: &Vec<bool>) -> (r: String)
    requires
        failed@.len() == synced@.len(),
    ensures
        r@ == connections_summary_spec(
            failed@.len() as nat,
            failed@.filter(|b: bool| b).len(),
            Seq::new(failed@.len(), |i: int| !failed@[i] && !synced@[i]).filter(|b: bool| b).len(),
        ),
{
    let ghost waiting = Seq::new(failed@.len(), |i: int| !failed@[i] && !synced@[i]);
    let mut failures: u64 = 0;
    let mut pending: u64 = 0;
    let mut i: usize = 0;
    while i < failed.len()
        invariant
            i <= failed@.len(),
            failed@.len() == synced@.len(),
            waiting == Seq::new(failed@.len(), |i: int| !failed@[i] && !synced@[i]),
            failures == failed@.take(i as int).filter(|b: bool| b).len(),
            pending == waiting.take(i as int).filter(|b: bool| b).len(),
            failures <= i,
            pending <= i,
        decreases failed@.len() - i,
    {
        proof {
            let t = failed@.take(i + 1);
            assert(t.drop_last() =~= failed@.take(i as int));
            reveal(Seq::filter);
            let w = waiting.take(i + 1);
            assert(w.drop_last() =~= waiting.take(i as int));
        }
        if failed[i] {
            failures = failures + 1;
        }
        if !failed[i] && !synced[i] {
            pending = pending + 1;
        }
        i = i + 1;
    }
    assert(failed@.take(failed@.len() as int) =~= failed@);
    assert(waiting.take(failed@.len() as int) =~= waiting);
    if failed.len() == 0 {
        "本地模式".to_string()
    } else if failures > 0 {
        let mut out = crate::text::decimal_u64(failures);
        append_str(&mut out, " 个连接同步失败 · 工具中可查看详情");
        string_from_chars(&out)
    } else if pending > 0 {
        let mut out = crate::text::decimal_u64(pending);
        append_str(&mut out, " 个连接待同步");
        string_from_chars(&out)
    } else {
        let mut out = crate::text::decimal_u64(failed.len() as u64);
        append_str(&mut out, " 个连接最近同步成功");
        string_from_chars(&out)
    }
}

} // verus!
