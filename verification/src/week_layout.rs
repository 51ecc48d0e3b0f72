//! Side-by-side lanes for the events of one day in the week view.
use vstd::prelude::*;
use vstd::set_lib::*;
use crate::db::{time_view, EventOccurrence};
use crate::text::{parse_i64_spec, split_once};

verus! {

/// What the week view needs to place an event: when it starts and how long it lasts (in
/// minutes), whether it fills the whole day, and the lane it is drawn in out of how many.
#[derive(Clone, Copy, Debug, PartialEq, Eq)]
pub struct LaneEvent {
    pub start_minutes: i32,
    pub duration_minutes: i32,
    pub all_day: bool,
    pub lane: i32,
    pub lane_count: i32,
}

/// The minute an event stops taking room: it lasts at least one minute.
pub open spec fn span_end(e: LaneEvent) -> int {
    e.start_minutes + if e.duration_minutes < 1 {
        1int
    } else {
        e.duration_minutes as int
    }
}

/// Event `k` is drawn on the time grid (it is not an all-day event).
pub open spec fn timed(s: Seq<LaneEvent>, k: int) -> bool {
    0 <= k < s.len() && !s[k].all_day
}

/// `j` is placed before `k`: it starts earlier, or at the same minute and comes first.
pub open spec fn placed_before(s: Seq<LaneEvent>, j: int, k: int) -> bool {
    s[j].start_minutes < s[k].start_minutes || (s[j].start_minutes == s[k].start_minutes && j < k)
}

/// `k` opens a group: every timed event placed before it has ended when it starts.
pub open spec fn opens_group(s: Seq<LaneEvent>, k: int) -> bool {
    forall|j: int| #![trigger s[j]] timed(s, j) && placed_before(s, j, k) ==> span_end(s[j]) <= s[k].start_minutes
}

/// `j`, placed no later than `k`, is in the group of `k`: no timed event after `j`, up to
/// `k`, opens a group.
pub open spec fn grouped(s: Seq<LaneEvent>, j: int, k: int) -> bool {
    &&& timed(s, j)
    &&& timed(s, k)
    &&& (j == k || placed_before(s, j, k))
    &&& forall|m: int|
        #![trigger opens_group(s, m)]
        timed(s, m) && placed_before(s, j, m) && (m == k || placed_before(s, m, k)) ==> !opens_group(s, m)
}

/// Two timed events belong to one group of transitively overlapping events.
pub open spec fn same_group(s: Seq<LaneEvent>, j: int, k: int) -> bool {
    grouped(s, j, k) || grouped(s, k, j)
}

/// The lane of `k` is the first one that no event placed before it in its group still
/// occupies when it starts.
pub open spec fn first_fit(s: Seq<LaneEvent>, r: Seq<LaneEvent>, k: int) -> bool {
    &&& r[k].lane >= 0
    &&& forall|j: int|
        #![trigger grouped(s, j, k)]
        grouped(s, j, k) && j != k && r[j].lane == r[k].lane ==> span_end(s[j]) <= s[k].start_minutes
    &&& forall|l: int| #![trigger lane_busy(s, r, k, l)] 0 <= l < r[k].lane ==> lane_busy(s, r, k, l)
}

/// Lane `l` is still occupied, when `k` starts, by an event placed before it in its group.
pub open spec fn lane_busy(s: Seq<LaneEvent>, r: Seq<LaneEvent>, k: int, l: int) -> bool {
    exists|j: int|
        #![trigger grouped(s, j, k), r[j]]
        grouped(s, j, k) && j != k && r[j].lane == l && span_end(s[j]) > s[k].start_minutes
}

/// The lane count of `k` is one more than the highest lane in its group.
pub open spec fn counts_lanes(s: Seq<LaneEvent>, r: Seq<LaneEvent>, k: int) -> bool {
    &&& forall|j: int| #![trigger same_group(s, j, k)] same_group(s, j, k) ==> r[j].lane < r[k].lane_count
    &&& exists|j: int| #![trigger same_group(s, j, k)] same_group(s, j, k) && r[j].lane + 1 == r[k].lane_count
}

/// Only the lanes change.
pub open spec fn keeps_times(s: Seq<LaneEvent>, r: Seq<LaneEvent>) -> bool {
    &&& r.len() == s.len()
    &&& forall|k: int|
        #![trigger r[k]]
        0 <= k < s.len() ==> r[k].start_minutes == s[k].start_minutes && r[k].duration_minutes
            == s[k].duration_minutes && r[k].all_day == s[k].all_day
}

/// `r` is `s` laid out: all-day events untouched, every timed event in its first free lane
/// and told how many lanes its group uses.
pub open spec fn lanes_laid_out(s: Seq<LaneEvent>, r: Seq<LaneEvent>) -> bool {
    &&& keeps_times(s, r)
    &&& forall|k: int| #![trigger r[k]] 0 <= k < s.len() && s[k].all_day ==> r[k] == s[k]
    &&& forall|k: int| #![trigger first_fit(s, r, k)] timed(s, k) ==> first_fit(s, r, k)
    &&& forall|k: int| #![trigger counts_lanes(s, r, k)] timed(s, k) ==> counts_lanes(s, r, k)
}

/// Every timed event ends within the range of an `i32`.
pub open spec fn spans_fit(s: Seq<LaneEvent>) -> bool {
    forall|k: int| #![trigger s[k]] timed(s, k) ==> span_end(s[k]) <= i32::MAX
}


proof fn lemma_grouped_self(s: Seq<LaneEvent>, k: int)
    requires
        timed(s, k),
    ensures
        grouped(s, k, k),
{
}

/// Within a group, membership is transitive.
proof fn lemma_group_trans(s: Seq<LaneEvent>, i: int, j: int, k: int)
    requires
        same_group(s, i, k),
        same_group(s, j, k),
    ensures
        same_group(s, i, j),
{
    if i == j {
        lemma_grouped_self(s, i);
    } else if placed_before(s, i, j) {
        assert forall|m: int|
            #![trigger opens_group(s, m)]
            timed(s, m) && placed_before(s, i, m) && (m == j || placed_before(s, m, j)) implies !opens_group(s, m) by {
            if grouped(s, i, k) && grouped(s, j, k) {
            } else if grouped(s, i, k) && grouped(s, k, j) {
                if !(m == k || placed_before(s, m, k)) {
                    assert(placed_before(s, k, m));
                }
            } else if grouped(s, k, i) && grouped(s, k, j) {
            } else {
            }
        }
        assert(grouped(s, i, j));
    } else {
        assert(placed_before(s, j, i));
        assert forall|m: int|
            #![trigger opens_group(s, m)]
            timed(s, m) && placed_before(s, j, m) && (m == i || placed_before(s, m, i)) implies !opens_group(s, m) by {
            if grouped(s, j, k) && grouped(s, i, k) {
            } else if grouped(s, j, k) && grouped(s, k, i) {
                if !(m == k || placed_before(s, m, k)) {
                    assert(placed_before(s, k, m));
                }
            } else if grouped(s, k, j) && grouped(s, k, i) {
            } else {
            }
        }
        assert(grouped(s, j, i));
    }
}

/// Two timed events that overlap in time are in one group.
proof fn lemma_overlap_grouped(s: Seq<LaneEvent>, j: int, k: int)
    requires
        timed(s, j),
        timed(s, k),
        placed_before(s, j, k),
        s[k].start_minutes < span_end(s[j]),
    ensures
        grouped(s, j, k),
{
    assert forall|m: int|
        #![trigger opens_group(s, m)]
        timed(s, m) && placed_before(s, j, m) && (m == k || placed_before(s, m, k)) implies !opens_group(s, m) by {
        assert(s[j] == s[j]);
    }
}

/// Events that overlap in time are drawn in different lanes, side by side with the same
/// number of lanes, each lane within that number.
pub proof fn lemma_overlapping_events_share_no_lane(s: Seq<LaneEvent>, r: Seq<LaneEvent>, j: int, k: int)
    requires
        lanes_laid_out(s, r),
        timed(s, j),
        timed(s, k),
        j != k,
        s[j].start_minutes < span_end(s[k]),
        s[k].start_minutes < span_end(s[j]),
    ensures
        r[j].lane != r[k].lane,
        r[j].lane_count == r[k].lane_count,
        0 <= r[k].lane < r[k].lane_count,
{
    assert(timed(s, j) && timed(s, k));
    if placed_before(s, j, k) {
        lemma_overlap_grouped(s, j, k);
        assert(first_fit(s, r, k));
    } else {
        assert(placed_before(s, k, j));
        lemma_overlap_grouped(s, k, j);
        assert(first_fit(s, r, j));
    }
    assert(same_group(s, j, k));
    lemma_grouped_self(s, k);
    lemma_grouped_self(s, j);
    assert(same_group(s, k, k));
    assert(counts_lanes(s, r, k) && counts_lanes(s, r, j));
    let wk = choose|w: int| #![trigger same_group(s, w, k)] same_group(s, w, k) && r[w].lane + 1 == r[k].lane_count;
    let wj = choose|w: int| #![trigger same_group(s, w, j)] same_group(s, w, j) && r[w].lane + 1 == r[j].lane_count;
    lemma_group_trans(s, wk, j, k);
    assert(same_group(s, k, j));
    lemma_group_trans(s, wj, k, j);
    assert(r[wk].lane < r[j].lane_count);
    assert(r[wj].lane < r[k].lane_count);
    assert(first_fit(s, r, k));
}


/// Whether `j` comes after the last placed event (every event does when none was placed).
spec fn after(s: Seq<LaneEvent>, prev: Option<usize>, j: int) -> bool {
    match prev {
        None => true,
        Some(p) => placed_before(s, p as int, j),
    }
}

/// The timed events placed so far: those up to the last one placed.
spec fn placed(s: Seq<LaneEvent>, prev: Option<usize>, j: int) -> bool {
    timed(s, j) && match prev {
        None => false,
        Some(p) => j == p || placed_before(s, j, p as int),
    }
}

/// The next timed event to place: the first one, in placing order, after `prev`.
fn next_after(v: &Vec<LaneEvent>, prev: Option<usize>) -> (r: Option<usize>)
    requires
        prev matches Some(p) ==> p < v.len(),
    ensures
        match r {
            None => forall|j: int| #![trigger v@[j]] timed(v@, j) ==> !after(v@, prev, j),
            Some(k) => {
                &&& timed(v@, k as int)
                &&& after(v@, prev, k as int)
                &&& forall|j: int|
                    #![trigger v@[j]]
                    timed(v@, j) && after(v@, prev, j) ==> j == k || placed_before(v@, k as int, j)
            },
        },
{
    let mut best: Option<usize> = None;
    let mut j: usize = 0;
    while j < v.len()
        invariant
            j <= v.len(),
            prev matches Some(p) ==> p < v.len(),
            match best {
                None => forall|i: int| #![trigger v@[i]] 0 <= i < j && timed(v@, i) ==> !after(v@, prev, i),
                Some(b) => {
                    &&& b < j
                    &&& timed(v@, b as int)
                    &&& after(v@, prev, b as int)
                    &&& forall|i: int|
                        #![trigger v@[i]]
                        0 <= i < j && timed(v@, i) && after(v@, prev, i) ==> i == b || placed_before(v@, b as int, i)
                },
            },
        decreases v.len() - j,
    {
        if !v[j].all_day {
            let is_after = match prev {
                None => true,
                Some(p) => v[p].start_minutes < v[j].start_minutes || (v[p].start_minutes == v[j].start_minutes && p < j),
            };
            if is_after {
                let better = match best {
                    None => true,
                    Some(b) => v[j].start_minutes < v[b].start_minutes,
                };
                if better {
                    best = Some(j);
                }
            }
        }
        j += 1;
    }
    best
}

proof fn lemma_first_fit_frame(s: Seq<LaneEvent>, r1: Seq<LaneEvent>, r2: Seq<LaneEvent>, k: int)
    requires
        first_fit(s, r1, k),
        0 <= k < s.len(),
        forall|j: int| #![trigger r2[j]] 0 <= j < s.len() && (j == k || placed_before(s, j, k)) ==> r2[j].lane == r1[j].lane,
    ensures
        first_fit(s, r2, k),
{
    assert(r2[k].lane == r1[k].lane);
    assert forall|l: int| #![trigger lane_busy(s, r2, k, l)] 0 <= l < r2[k].lane implies lane_busy(s, r2, k, l) by {
        assert(lane_busy(s, r1, k, l));
        let j = choose|j: int|
            #![trigger grouped(s, j, k), r1[j]]
            grouped(s, j, k) && j != k && r1[j].lane == l && span_end(s[j]) > s[k].start_minutes;
        assert(r2[j].lane == r1[j].lane);
    }
    assert forall|j: int| #![trigger grouped(s, j, k)] grouped(s, j, k) && j != k && r2[j].lane == r2[k].lane implies span_end(s[j]) <= s[k].start_minutes by {
        assert(r2[j].lane == r1[j].lane);
    }
}


/// The first lane that is free at `start`, or the number of lanes when none is.
fn first_free(lane_ends: &Vec<i32>, start: i32) -> (l: usize)
    ensures
        l <= lane_ends.len(),
        forall|i: int| 0 <= i < l ==> lane_ends@[i] > start,
        l < lane_ends.len() ==> lane_ends@[l as int] <= start,
{
    let mut l: usize = 0;
    while l < lane_ends.len() && lane_ends[l] > start
        invariant
            l <= lane_ends.len(),
            forall|i: int| 0 <= i < l ==> lane_ends@[i] > start,
        decreases lane_ends.len() - l,
    {
        l += 1;
    }
    l
}

/// Placing the next event `k` after `prev` extends the placed events by `k` alone, and
/// every event placed so far, or timed and placed before `k`, was placed before it.
proof fn lemma_placed_step(s: Seq<LaneEvent>, prev: Option<usize>, k: usize)
    requires
        prev matches Some(p) ==> p < s.len(),
        timed(s, k as int),
        after(s, prev, k as int),
        forall|j: int| #![trigger s[j]] timed(s, j) && after(s, prev, j) ==> j == k as int || placed_before(s, k as int, j),
    ensures
        forall|j: int| #![trigger placed(s, prev, j)] placed(s, prev, j) ==> placed_before(s, j, k as int),
        forall|j: int| #![trigger s[j]] timed(s, j) && placed_before(s, j, k as int) ==> placed(s, prev, j),
        forall|j: int|
            #![trigger placed(s, Some(k), j)]
            placed(s, Some(k), j) <==> (placed(s, prev, j) || j == k as int),
        !placed(s, prev, k as int),
{
    assert forall|j: int| #![trigger s[j]] timed(s, j) && placed_before(s, j, k as int) implies placed(s, prev, j) by {
        if after(s, prev, j) {
            assert(j == k as int || placed_before(s, k as int, j));
        }
    }
}

/// When `k` opens a group, none of the events placed before it is in its group.
proof fn lemma_opened_apart(s: Seq<LaneEvent>, prev: Option<usize>, k: int)
    requires
        timed(s, k),
        opens_group(s, k),
        forall|j: int| #![trigger placed(s, prev, j)] placed(s, prev, j) ==> placed_before(s, j, k),
    ensures
        forall|j: int| #![trigger placed(s, prev, j)] placed(s, prev, j) ==> !same_group(s, j, k),
{
    assert forall|j: int| #![trigger placed(s, prev, j)] placed(s, prev, j) implies !same_group(s, j, k) by {
        if grouped(s, j, k) {
            assert(!opens_group(s, k));
        }
    }
}

/// When `k` joins the open group of `leader`, the events placed before it that are in its
/// group are exactly the members of that group.
proof fn lemma_joined_group(s: Seq<LaneEvent>, prev: Option<usize>, k: int, leader: int)
    requires
        timed(s, k),
        !opens_group(s, k),
        placed(s, prev, leader),
        opens_group(s, leader),
        forall|m: int| #![trigger placed(s, prev, m)] placed(s, prev, m) && placed_before(s, leader, m) ==> !opens_group(s, m),
        forall|j: int| #![trigger placed(s, prev, j)] placed(s, prev, j) ==> placed_before(s, j, k),
        forall|j: int| #![trigger s[j]] timed(s, j) && placed_before(s, j, k) ==> placed(s, prev, j),
    ensures
        forall|j: int|
            #![trigger placed(s, prev, j)]
            placed(s, prev, j) ==> (grouped(s, j, k) <==> (j == leader || placed_before(s, leader, j))),
        forall|j: int| #![trigger placed(s, prev, j)] placed(s, prev, j) ==> !grouped(s, k, j),
{
    assert forall|j: int|
        #![trigger placed(s, prev, j)]
        placed(s, prev, j) implies (grouped(s, j, k) <==> (j == leader || placed_before(s, leader, j))) by {
        assert(placed(s, prev, leader));
        if j == leader || placed_before(s, leader, j) {
            assert forall|m: int|
                #![trigger opens_group(s, m)]
                timed(s, m) && placed_before(s, j, m) && (m == k || placed_before(s, m, k)) implies !opens_group(s, m) by {
                if m != k {
                    assert(s[m] == s[m]);
                    assert(placed(s, prev, m));
                    assert(placed_before(s, leader, m));
                }
            }
        } else {
            assert(placed_before(s, j, leader));
            assert(placed_before(s, leader, k));
            if grouped(s, j, k) {
                assert(!opens_group(s, leader));
            }
        }
    }
}


spec fn rank_start(s: Seq<LaneEvent>, prev: Option<usize>) -> int {
    match prev {
        None => i32::MAX as int - i32::MIN as int + 1,
        Some(p) => i32::MAX as int - s[p as int].start_minutes as int,
    }
}

spec fn rank_index(n: int, prev: Option<usize>) -> int {
    match prev {
        None => n + 1,
        Some(p) => n - p,
    }
}

/// The first pass: every timed event, in placing order, gets the first free lane of its
/// group, and a group number that it shares exactly with the events of its group.
#[verifier::rlimit(50)]
fn assign_lanes(events: &mut Vec<LaneEvent>) -> (gids: Vec<usize>)
    requires
        old(events).len() < i32::MAX,
        spans_fit(old(events)@),
    ensures
        keeps_times(old(events)@, final(events)@),
        forall|k: int| #![trigger final(events)@[k]] 0 <= k < old(events)@.len() && old(events)@[k].all_day ==> final(events)@[k] == old(events)@[k],
        gids@.len() == old(events)@.len(),
        forall|k: int|
            #![trigger timed(old(events)@, k)]
            timed(old(events)@, k) ==> first_fit(old(events)@, final(events)@, k) && final(events)@[k].lane < old(events)@.len(),
        forall|j: int, k: int|
            #![trigger same_group(old(events)@, j, k)]
            timed(old(events)@, j) && timed(old(events)@, k) ==> (same_group(old(events)@, j, k) <==> gids@[j] == gids@[k]),
{
    let ghost s = events@;
    let n = events.len();
    let mut gids: Vec<usize> = Vec::new();
    while gids.len() < n
        invariant
            gids@.len() <= n,
        decreases n - gids.len(),
    {
        gids.push(0);
    }
    let mut prev: Option<usize> = None;
    let mut leader: usize = 0;
    let mut group_end: i32 = 0;
    let mut cur_gid: usize = 0;
    let mut lane_ends: Vec<i32> = Vec::new();
    let ghost mut lane_wit: Seq<int> = Seq::empty();
    let ghost mut end_wit: int = 0;
    let ghost mut done: Set<int> = Set::empty();
    loop
        invariant
            n == s.len(),
            n < i32::MAX,
            spans_fit(s),
            events@.len() == n,
            gids@.len() == n,
            keeps_times(s, events@),
            forall|k: int| #![trigger events@[k]] 0 <= k < n && s[k].all_day ==> events@[k] == s[k],
            prev matches Some(p) ==> p < n && timed(s, p as int),
            prev is None ==> cur_gid == 0,
            done.finite(),
            forall|j: int| #![trigger done.contains(j)] done.contains(j) <==> placed(s, prev, j),
            done.len() <= n,
            forall|k: int|
                #![trigger placed(s, prev, k)]
                placed(s, prev, k) ==> first_fit(s, events@, k) && events@[k].lane < done.len(),
            forall|j: int, k: int|
                #![trigger placed(s, prev, j), placed(s, prev, k)]
                placed(s, prev, j) && placed(s, prev, k) ==> (same_group(s, j, k) <==> gids@[j] == gids@[k]),
            prev is Some ==> {
                &&& placed(s, prev, leader as int)
                &&& opens_group(s, leader as int)
                &&& forall|m: int|
                    #![trigger placed(s, prev, m)]
                    placed(s, prev, m) && placed_before(s, leader as int, m) ==> !opens_group(s, m)
                &&& cur_gid < done.len()
                &&& forall|j: int|
                    #![trigger placed(s, prev, j)]
                    placed(s, prev, j) ==> gids@[j] <= cur_gid && (gids@[j] == cur_gid <==> (j == leader
                        || placed_before(s, leader as int, j)))
                &&& forall|j: int| #![trigger placed(s, prev, j)] placed(s, prev, j) ==> span_end(s[j]) <= group_end
                &&& placed(s, prev, end_wit)
                &&& span_end(s[end_wit]) == group_end
                &&& 1 <= lane_ends.len() <= done.len()
                &&& lane_wit.len() == lane_ends.len()
                &&& forall|j: int|
                    #![trigger placed(s, prev, j)]
                    placed(s, prev, j) && gids@[j] == cur_gid ==> events@[j].lane < lane_ends.len() && span_end(s[j])
                        <= lane_ends@[events@[j].lane as int]
                &&& forall|l: int|
                    #![trigger lane_wit[l]]
                    0 <= l < lane_ends.len() ==> placed(s, prev, lane_wit[l]) && gids@[lane_wit[l]] == cur_gid
                        && events@[lane_wit[l]].lane == l && span_end(s[lane_wit[l]]) == lane_ends@[l]
            },
        ensures
            forall|j: int| #![trigger s[j]] timed(s, j) ==> placed(s, prev, j),
        decreases rank_start(s, prev), rank_index(n as int, prev),
    {
        let nx = next_after(events, prev);
        let k = match nx {
            None => {
                proof {
                    assert forall|j: int| #![trigger s[j]] timed(s, j) implies placed(s, prev, j) by {
                        assert(events@[j].start_minutes == s[j].start_minutes && events@[j].all_day == s[j].all_day);
                        if let Some(p) = prev {
                            assert(events@[p as int].start_minutes == s[p as int].start_minutes);
                        }
                    }
                }
                break;
            },
            Some(k) => k,
        };
        let e = events[k];
        assert(s[k as int].all_day == e.all_day);
        assert(span_end(s[k as int]) <= i32::MAX);
        let end: i32 = e.start_minutes + if e.duration_minutes < 1 {
            1
        } else {
            e.duration_minutes
        };
        proof {
            assert forall|j: int| #![trigger s[j]] timed(s, j) && after(s, prev, j) implies j == k as int || placed_before(s, k as int, j) by {
                assert(events@[j].start_minutes == s[j].start_minutes && events@[j].all_day == s[j].all_day);
                assert(events@[k as int].start_minutes == s[k as int].start_minutes);
                if let Some(p) = prev {
                    assert(events@[p as int].start_minutes == s[p as int].start_minutes);
                }
            }
            assert(events@[k as int].start_minutes == s[k as int].start_minutes);
            if let Some(p) = prev {
                assert(events@[p as int].start_minutes == s[p as int].start_minutes);
            }
            lemma_placed_step(s, prev, k);
        }
        let ghost old_events = events@;
        let ghost old_gids = gids@;
        let ghost old_prev = prev;
        let ghost old_done = done;
        let ghost old_cur = cur_gid;
        let ghost old_leader = leader as int;
        let ghost old_ends = lane_ends@;
        let ghost old_wit = lane_wit;
        let ghost old_group_end = group_end as int;
        let ghost old_end_wit = end_wit;
        let opens = match prev {
            None => true,
            Some(_) => e.start_minutes >= group_end,
        };
        proof {
            let kk = k as int;
            if opens {
                assert forall|j: int| #![trigger s[j]] timed(s, j) && placed_before(s, j, kk) implies span_end(s[j]) <= s[kk].start_minutes by {
                    assert(placed(s, prev, j));
                }
                assert(opens_group(s, kk));
                lemma_opened_apart(s, prev, kk);
            } else {
                assert(placed(s, prev, end_wit));
                assert(placed_before(s, end_wit, kk));
                assert(s[end_wit] == s[end_wit]);
                assert(!opens_group(s, kk));
                lemma_joined_group(s, prev, kk, leader as int);
            }
        }
        if opens {
            if prev.is_some() {
                cur_gid = cur_gid + 1;
            }
            leader = k;
            group_end = end;
            lane_ends = Vec::new();
            proof {
                lane_wit = Seq::empty();
                end_wit = k as int;
            }
        } else if end > group_end {
            group_end = end;
            proof {
                end_wit = k as int;
            }
        }
        let lane_ix = first_free(&lane_ends, e.start_minutes);
        if lane_ix == lane_ends.len() {
            lane_ends.push(end);
            proof {
                lane_wit = lane_wit.push(k as int);
            }
        } else {
            lane_ends.set(lane_ix, end);
            proof {
                lane_wit = lane_wit.update(lane_ix as int, k as int);
            }
        }
        events.set(k, LaneEvent {
            start_minutes: e.start_minutes,
            duration_minutes: e.duration_minutes,
            all_day: e.all_day,
            lane: lane_ix as i32,
            lane_count: e.lane_count,
        });
        gids.set(k, cur_gid);
        proof {
            done = done.insert(k as int);
        }
        prev = Some(k);
        proof {
            let kk = k as int;
            assert(!old_done.contains(kk));
            assert(done.len() == old_done.len() + 1);
            assert forall|j: int| #![trigger done.contains(j)] done.contains(j) implies set_int_range(0, n as int).contains(j) by {
                assert(placed(s, prev, j));
            }
            lemma_int_range(0, n as int);
            lemma_len_subset(done, set_int_range(0, n as int));
            assert(events@ == old_events.update(kk, events@[kk]));
            assert(events@[kk].lane == lane_ix as int);
            // first-fit of the new event
            if opens {
                assert forall|j: int| #![trigger grouped(s, j, kk)] grouped(s, j, kk) && j != kk && events@[j].lane == events@[kk].lane implies span_end(s[j]) <= s[kk].start_minutes by {
                    assert(s[j] == s[j]);
                    assert(placed(s, old_prev, j));
                    assert(!same_group(s, j, kk));
                }
                assert(lane_ix == 0);
            } else {
                assert forall|j: int| #![trigger grouped(s, j, kk)] grouped(s, j, kk) && j != kk && events@[j].lane == events@[kk].lane implies span_end(s[j]) <= s[kk].start_minutes by {
                    assert(s[j] == s[j]);
                    assert(placed(s, old_prev, j));
                    assert(old_gids[j] == old_cur);
                    assert(old_events[j].lane == lane_ix as int);
                }
                assert forall|l: int| #![trigger lane_busy(s, events@, kk, l)] 0 <= l < events@[kk].lane implies lane_busy(s, events@, kk, l) by {
                    let w = old_wit[l];
                    assert(placed(s, old_prev, w));
                    assert(old_gids[w] == old_cur);
                    assert(grouped(s, w, kk));
                    assert(events@[w] == old_events[w]);
                }
            }
            assert(first_fit(s, events@, kk));
            assert forall|j: int| #![trigger placed(s, prev, j)] placed(s, prev, j) implies first_fit(s, events@, j) && events@[j].lane < done.len() by {
                if j != kk {
                    assert(placed(s, old_prev, j));
                    assert forall|i: int| #![trigger events@[i]] 0 <= i < s.len() && (i == j || placed_before(s, i, j)) implies events@[i].lane == old_events[i].lane by {
                        assert(i != kk);
                    }
                    lemma_first_fit_frame(s, old_events, events@, j);
                }
            }
            lemma_grouped_self(s, kk);
            assert forall|a: int, b: int|
                #![trigger placed(s, prev, a), placed(s, prev, b)]
                placed(s, prev, a) && placed(s, prev, b) implies (same_group(s, a, b) <==> gids@[a] == gids@[b]) by {
                if a != kk && b != kk {
                    assert(placed(s, old_prev, a) && placed(s, old_prev, b));
                } else if a == kk && b != kk {
                    assert(placed(s, old_prev, b));
                } else if a != kk && b == kk {
                    assert(placed(s, old_prev, a));
                }
            }
            // the open group
            assert(placed(s, prev, leader as int));
            assert(opens_group(s, leader as int));
            assert forall|m: int|
                #![trigger placed(s, prev, m)]
                placed(s, prev, m) && placed_before(s, leader as int, m) implies !opens_group(s, m) by {
                if m != kk {
                    assert(placed(s, old_prev, m));
                }
            }
            assert(cur_gid < done.len());
            assert forall|j: int|
                #![trigger placed(s, prev, j)]
                placed(s, prev, j) implies gids@[j] <= cur_gid && (gids@[j] == cur_gid <==> (j == leader
                    || placed_before(s, leader as int, j))) by {
                if j != kk {
                    assert(placed(s, old_prev, j));
                }
            }
            assert forall|j: int| #![trigger placed(s, prev, j)] placed(s, prev, j) implies span_end(s[j]) <= group_end by {
                if j != kk {
                    assert(placed(s, old_prev, j));
                }
            }
            assert(placed(s, prev, end_wit));
            assert(span_end(s[end_wit]) == group_end);
            assert(1 <= lane_ends.len() <= done.len());
            assert forall|j: int|
                #![trigger placed(s, prev, j)]
                placed(s, prev, j) && gids@[j] == cur_gid implies events@[j].lane < lane_ends.len() && span_end(s[j])
                    <= lane_ends@[events@[j].lane as int] by {
                if j != kk {
                    assert(placed(s, old_prev, j));
                    assert(events@[j] == old_events[j]);
                    assert(!opens);
                    assert(old_gids[j] == old_cur);
                }
            }
            assert forall|l: int|
                #![trigger lane_wit[l]]
                0 <= l < lane_ends.len() implies placed(s, prev, lane_wit[l]) && gids@[lane_wit[l]] == cur_gid
                    && events@[lane_wit[l]].lane == l && span_end(s[lane_wit[l]]) == lane_ends@[l] by {
                if l != lane_ix as int {
                    let w = old_wit[l];
                    assert(!opens);
                    assert(lane_wit[l] == w);
                    assert(placed(s, old_prev, w));
                    assert(w != kk);
                    assert(events@[w] == old_events[w]);
                }
            }
        }
    }
    assert forall|k: int|
        #![trigger timed(s, k)]
        timed(s, k) implies first_fit(s, events@, k) && events@[k].lane < n by {
        assert(s[k] == s[k]);
        assert(placed(s, prev, k));
    }
    assert forall|j: int, k: int|
        #![trigger same_group(s, j, k)]
        timed(s, j) && timed(s, k) implies (same_group(s, j, k) <==> gids@[j] == gids@[k]) by {
        assert(s[j] == s[j]);
        assert(s[k] == s[k]);
        assert(placed(s, prev, j) && placed(s, prev, k));
    }
    gids
}


/// The second pass: each timed event learns how many lanes its group uses, one more than
/// the highest lane among the events with its group number.
fn count_lanes(events: &mut Vec<LaneEvent>, gids: Vec<usize>) -> (tops: Ghost<Seq<int>>)
    requires
        gids@.len() == old(events)@.len(),
        old(events)@.len() < i32::MAX,
        forall|k: int| #![trigger old(events)@[k]] timed(old(events)@, k) ==> 0 <= old(events)@[k].lane < old(events)@.len(),
    ensures
        keeps_times(old(events)@, final(events)@),
        forall|k: int| #![trigger final(events)@[k]] 0 <= k < old(events)@.len() ==> final(events)@[k].lane == old(events)@[k].lane,
        forall|k: int| #![trigger final(events)@[k]] 0 <= k < old(events)@.len() && old(events)@[k].all_day ==> final(events)@[k] == old(events)@[k],
        forall|j: int, k: int|
            #![trigger gids@[j], final(events)@[k]]
            timed(old(events)@, j) && timed(old(events)@, k) && gids@[j] == gids@[k] ==> final(events)@[j].lane
                < final(events)@[k].lane_count,
        forall|k: int|
            #![trigger tops@[k]]
            timed(old(events)@, k) ==> timed(old(events)@, tops@[k]) && gids@[tops@[k]] == gids@[k]
                && final(events)@[tops@[k]].lane + 1 == final(events)@[k].lane_count,
{
    let ghost s = events@;
    let n = events.len();
    let ghost mut tops: Seq<int> = Seq::new(n as nat, |i: int| 0int);
    let mut k: usize = 0;
    while k < n
        invariant
            n == s.len(),
            n < i32::MAX,
            gids@.len() == n,
            forall|i: int| #![trigger s[i]] timed(s, i) ==> 0 <= s[i].lane < n,
            events@.len() == n,
            keeps_times(s, events@),
            forall|i: int| #![trigger events@[i]] 0 <= i < n ==> events@[i].lane == s[i].lane,
            forall|i: int| #![trigger events@[i]] 0 <= i < n && s[i].all_day ==> events@[i] == s[i],
            forall|i: int|
                #![trigger timed(s, i)]
                timed(s, i) && i < k ==> {
                    &&& forall|j: int|
                        #![trigger gids@[j]]
                        timed(s, j) && gids@[j] == gids@[i] ==> events@[j].lane < events@[i].lane_count
                    &&& timed(s, tops[i])
                    &&& gids@[tops[i]] == gids@[i]
                    &&& events@[tops[i]].lane + 1 == events@[i].lane_count
                },
            tops.len() == n,
        decreases n - k,
    {
        let e = events[k];
        if !e.all_day {
            let mut top: i32 = 0;
            let ghost mut wit: int = 0;
            let mut j: usize = 0;
            while j < n
                invariant
                    n == s.len(),
                    n < i32::MAX,
                    k < n,
                    gids@.len() == n,
                    events@.len() == n,
                    forall|i: int| #![trigger s[i]] timed(s, i) ==> 0 <= s[i].lane < n,
                    keeps_times(s, events@),
                    forall|i: int| #![trigger events@[i]] 0 <= i < n ==> events@[i].lane == s[i].lane,
                    0 <= top <= n,
                    j <= n,
                    forall|i: int| #![trigger s[i]] 0 <= i < j && timed(s, i) && gids@[i] == gids@[k as int] ==> events@[i].lane < top,
                    top > 0 ==> timed(s, wit) && gids@[wit] == gids@[k as int] && events@[wit].lane + 1 == top,
                decreases n - j,
            {
                let f = events[j];
                if !f.all_day && gids[j] == gids[k] {
                    assert(s[j as int] == s[j as int]);
                    if f.lane + 1 > top {
                        top = f.lane + 1;
                        proof {
                            wit = j as int;
                        }
                    }
                }
                j += 1;
            }
            assert(s[k as int] == s[k as int]);
            assert(timed(s, k as int));
            assert(gids@[k as int] == gids@[k as int]);
            assert(events@[k as int].lane == s[k as int].lane);
            assert(j == n);
            assert(0 <= k < j);
            assert(events@[k as int].lane < top);
            assert(top > 0);
            let ghost before = events@;
            events.set(k, LaneEvent {
                start_minutes: e.start_minutes,
                duration_minutes: e.duration_minutes,
                all_day: e.all_day,
                lane: e.lane,
                lane_count: top,
            });
            proof {
                tops = tops.update(k as int, wit);
                assert forall|i: int|
                    #![trigger timed(s, i)]
                    timed(s, i) && i < k + 1 implies {
                        &&& forall|j: int|
                            #![trigger gids@[j]]
                            timed(s, j) && gids@[j] == gids@[i] ==> events@[j].lane < events@[i].lane_count
                        &&& timed(s, tops[i])
                        &&& gids@[tops[i]] == gids@[i]
                        &&& events@[tops[i]].lane + 1 == events@[i].lane_count
                    } by {
                    if i < k {
                        assert(events@[i] == before[i]);
                        assert(events@[tops[i]].lane == before[tops[i]].lane);
                    } else {
                        assert(events@[wit].lane == before[wit].lane);
                    }
                }
            }
        }
        k += 1;
    }
    Ghost(tops)
}

proof fn lemma_laid_out(s: Seq<LaneEvent>, mid: Seq<LaneEvent>, r: Seq<LaneEvent>, gids: Seq<usize>, tops: Seq<int>)
    requires
        keeps_times(s, mid),
        keeps_times(mid, r),
        forall|k: int| #![trigger mid[k]] 0 <= k < s.len() && s[k].all_day ==> mid[k] == s[k],
        forall|k: int| #![trigger r[k]] 0 <= k < mid.len() && mid[k].all_day ==> r[k] == mid[k],
        forall|k: int| #![trigger r[k]] 0 <= k < mid.len() ==> r[k].lane == mid[k].lane,
        gids.len() == s.len(),
        forall|k: int| #![trigger timed(s, k)] timed(s, k) ==> first_fit(s, mid, k),
        forall|j: int, k: int|
            #![trigger same_group(s, j, k)]
            timed(s, j) && timed(s, k) ==> (same_group(s, j, k) <==> gids[j] == gids[k]),
        forall|j: int, k: int|
            #![trigger gids[j], r[k]]
            timed(mid, j) && timed(mid, k) && gids[j] == gids[k] ==> r[j].lane < r[k].lane_count,
        forall|k: int|
            #![trigger tops[k]]
            timed(mid, k) ==> timed(mid, tops[k]) && gids[tops[k]] == gids[k] && r[tops[k]].lane + 1 == r[k].lane_count,
    ensures
        lanes_laid_out(s, r),
{
    assert forall|k: int| #![trigger r[k]] 0 <= k < s.len() && s[k].all_day implies r[k] == s[k] by {
        assert(mid[k] == s[k]);
    }
    assert forall|k: int| #![trigger timed(s, k)] timed(s, k) implies first_fit(s, r, k) && counts_lanes(s, r, k) by {
        assert(mid[k] == mid[k]);
        let w = tops[k];
        assert(timed(mid, k));
        assert forall|j: int| #![trigger r[j]] 0 <= j < s.len() && (j == k || placed_before(s, j, k)) implies r[j].lane == mid[j].lane by {
            assert(mid[j] == mid[j]);
        }
        lemma_first_fit_frame(s, mid, r, k);
        assert forall|j: int| #![trigger same_group(s, j, k)] same_group(s, j, k) implies r[j].lane < r[k].lane_count by {
            assert(timed(s, j));
            assert(mid[j] == mid[j]);
            assert(timed(mid, j));
            assert(gids[j] == gids[k]);
        }
        assert(mid[w] == mid[w]);
        assert(timed(s, w));
        assert(same_group(s, w, k));
    }
}

/// Places the events of one day of the week view side by side. All-day events are left
/// alone. The timed ones are taken by start minute (ties in their given order); each one
/// opens a group when every earlier event has ended by its start, and otherwise joins the
/// current group, taking the first lane that no earlier event of the group still occupies.
/// Every event of a group is then told how many lanes the group uses.
pub fn layout_week_event_lanes(events: &mut Vec<LaneEvent>)
    requires
        old(events).len() < i32::MAX,
        spans_fit(old(events)@),
    ensures
        lanes_laid_out(old(events)@, final(events)@),
{
    let ghost s = events@;
    let gids = assign_lanes(events);
    let ghost mid = events@;
    proof {
        assert forall|k: int| #![trigger mid[k]] timed(mid, k) implies 0 <= mid[k].lane < mid.len() by {
            assert(timed(s, k));
        }
    }
    let ghost g = gids@;
    let tops = count_lanes(events, gids);
    proof {
        let r = events@;
        let t = tops@;
        lemma_laid_out(s, mid, r, g, t);
    }
}


/// `str::parse::<i32>`: as for `i64`, within the range of `i32`.
pub open spec fn parse_i32_spec(s: Seq<char>) -> Option<int> {
    match parse_i64_spec(s) {
        Some(v) => if i32::MIN <= v <= i32::MAX {
            Some(v)
        } else {
            None
        },
        None => None,
    }
}

/// The hours and minutes of an `H:M` time, each read as an `i32`.
pub open spec fn time_parts(t: Seq<char>) -> Option<(int, int)> {
    match split_once(t, ':') {
        Some((h, m)) => match (parse_i32_spec(h), parse_i32_spec(m)) {
            (Some(a), Some(b)) => Some((a, b)),
            _ => None,
        },
        None => None,
    }
}

/// The time of an event, when it has one that reads, fits an `i32` in minutes.
pub open spec fn lane_time_fits(time: Option<Seq<char>>) -> bool {
    match time {
        Some(t) => match time_parts(t) {
            Some((a, b)) => i32::MIN <= a * 60 <= i32::MAX && i32::MIN <= a * 60 + b <= i32::MAX,
            None => true,
        },
        None => true,
    }
}

/// How the week view places an occurrence before lanes are given: at the minute its time
/// names (hours times 60 plus minutes), lasting its duration but at least 15 minutes; or,
/// when it has no time that reads, across the whole day.
pub open spec fn lane_event_spec(occ: EventOccurrence) -> LaneEvent {
    let parts = match time_view(occ.event) {
        Some(t) => time_parts(t),
        None => None,
    };
    match parts {
        Some((a, b)) => LaneEvent {
            start_minutes: (a * 60 + b) as i32,
            duration_minutes: (if occ.event.duration_minutes < 15 {
                15
            } else {
                occ.event.duration_minutes
            }) as i32,
            all_day: false,
            lane: 0,
            lane_count: 1,
        },
        None => LaneEvent { start_minutes: 0, duration_minutes: 1440, all_day: true, lane: 0, lane_count: 1 },
    }
}

fn parse_i32(s: &Vec<char>) -> (r: Option<i32>)
    ensures
        match r {
            Some(v) => parse_i32_spec(s@) == Some(v as int),
            None => parse_i32_spec(s@) is None,
        },
{
    match crate::text::parse_i64(s) {
        Some(v) => if i32::MIN as i64 <= v && v <= i32::MAX as i64 {
            Some(v as i32)
        } else {
            None
        },
        None => None,
    }
}

/// The placement of an occurrence in the week view, before lanes are given.
pub fn lane_event_of(occ: &EventOccurrence) -> (r: LaneEvent)
    requires
        lane_time_fits(time_view(occ.event)),
    ensures
        r == lane_event_spec(*occ),
{
    let all_day = LaneEvent { start_minutes: 0, duration_minutes: 1440, all_day: true, lane: 0, lane_count: 1 };
    let t = match &occ.event.time {
        Some(t) => crate::text::chars_of(t.as_str()),
        None => {
            return all_day;
        },
    };
    let (h, m) = match crate::text::split_once_chars(&t, ':') {
        Some(p) => p,
        None => {
            return all_day;
        },
    };
    let a = match parse_i32(&h) {
        Some(a) => a,
        None => {
            return all_day;
        },
    };
    let b = match parse_i32(&m) {
        Some(b) => b,
        None => {
            return all_day;
        },
    };
    let d: i64 = if occ.event.duration_minutes < 15 {
        15
    } else {
        occ.event.duration_minutes
    };
    LaneEvent {
        start_minutes: a * 60 + b,
        duration_minutes: d as i32,
        all_day: false,
        lane: 0,
        lane_count: 1,
    }
}

} // verus!
