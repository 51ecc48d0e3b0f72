//! Repeat rules of events: how a rule is written down, how it is described to the user,
//! and on which days a repeating event occurs within a range.
//!
//! Rules are stored as text. Besides `daily`, `weekly`, `monthly` and `yearly` there are
//! two compound forms:
//! - `weekly:1,3,5`    repeats on several weekdays (0 = Monday .. 6 = Sunday);
//! - `monthly-nth:3:4` repeats on the n-th weekday of each month (n in 1..=5).

use crate::date::{
    days_in_month, max_day_number, min_day_number, valid_ymd, ymd_number, Date, MAX_YEAR,
};
use crate::text::{
    lemma_decimal_digits, lemma_decimal_plain, lemma_join_last, lemma_parse_decimal,
    lemma_split_cons, lemma_split_join, lemma_split_single, lemma_trim_id, append_all, append_str, chars_of, decimal, decimal_u64, eq_str, join, join_chars, parse_u8,
    parse_u8_spec, split, split_chars, starts_with, string_from_chars, strip_prefix_str, trim,
    trim_chars, trim_str, views,
};
use vstd::prelude::*;

verus! {

/// How an event repeats.
#[derive(Debug, Clone, PartialEq, Eq)]
pub enum RepeatRule {
    NoRepeat,
    Daily,
    /// Every 7 days, on the weekday of the first occurrence.
    Weekly,
    /// On several weekdays of every week (0 = Monday .. 6 = Sunday).
    WeeklyOn(Vec<u8>),
    /// On the day of the month of the first occurrence.
    Monthly,
    /// On the n-th weekday of every month (n in 1..=5, weekday 0 = Monday .. 6 = Sunday).
    MonthlyNth(u8, u8),
    Yearly,
}

/// A repeat rule as a mathematical value.
pub enum RuleModel {
    NoRepeat,
    Daily,
    Weekly,
    WeeklyOn(Seq<u8>),
    Monthly,
    MonthlyNth(u8, u8),
    Yearly,
}

impl View for RepeatRule {
    type V = RuleModel;

    open spec fn view(&self) -> RuleModel {
        match self {
            RepeatRule::NoRepeat => RuleModel::NoRepeat,
            RepeatRule::Daily => RuleModel::Daily,
            RepeatRule::Weekly => RuleModel::Weekly,
            RepeatRule::WeeklyOn(days) => RuleModel::WeeklyOn(days@),
            RepeatRule::Monthly => RuleModel::Monthly,
            RepeatRule::MonthlyNth(n, w) => RuleModel::MonthlyNth(*n, *w),
            RepeatRule::Yearly => RuleModel::Yearly,
        }
    }
}

/// A rule within the ranges its documentation gives: weekdays below 7 and, for the
/// n-th weekday form, n in 1..=5.
pub open spec fn rule_wf(r: RuleModel) -> bool {
    match r {
        RuleModel::WeeklyOn(days) => days.len() > 0 && forall|k: int|
            0 <= k < days.len() ==> #[trigger] days[k] < 7,
        RuleModel::MonthlyNth(n, w) => 1 <= n <= 5 && w < 7,
        _ => true,
    }
}

// ------------------------------------------------------------------
// Text form
// ------------------------------------------------------------------

/// The weekdays listed in `weekly:` pieces: each piece trimmed and read as a number,
/// keeping the numbers below 7.
pub open spec fn weekday_list(pieces: Seq<Seq<char>>) -> Seq<u8>
    decreases pieces.len(),
{
    if pieces.len() == 0 {
        seq![]
    } else {
        let rest = weekday_list(pieces.drop_last());
        match parse_u8_spec(trim(pieces.last())) {
            Some(v) => if v < 7 {
                rest.push(v as u8)
            } else {
                rest
            },
            None => rest,
        }
    }
}

/// The `n:w` part of a `monthly-nth:` rule, when both numbers read and are in range.
pub open spec fn nth_parts(rest: Seq<char>) -> Option<(u8, u8)> {
    let parts = split(rest, ':');
    if parts.len() >= 2 {
        match (parse_u8_spec(parts[0]), parse_u8_spec(parts[1])) {
            (Some(n), Some(w)) => if 1 <= n <= 5 && w < 7 {
                Some((n as u8, w as u8))
            } else {
                None
            },
            _ => None,
        }
    } else {
        None
    }
}

/// The rule a stored text stands for; unknown text means no repetition.
pub open spec fn parse_rule(s: Seq<char>) -> RuleModel {
    let t = trim(s);
    let wk = "weekly:"@;
    let mn = "monthly-nth:"@;
    if starts_with(t, wk) && weekday_list(split(t.subrange(wk.len() as int, t.len() as int), ','))
        .len() > 0 {
        RuleModel::WeeklyOn(
            weekday_list(split(t.subrange(wk.len() as int, t.len() as int), ',')),
        )
    } else if starts_with(t, mn) && nth_parts(t.subrange(mn.len() as int, t.len() as int)) is Some {
        let (n, w) = nth_parts(t.subrange(mn.len() as int, t.len() as int))->0;
        RuleModel::MonthlyNth(n, w)
    } else if t == "daily"@ {
        RuleModel::Daily
    } else if t == "weekly"@ {
        RuleModel::Weekly
    } else if t == "monthly"@ {
        RuleModel::Monthly
    } else if t == "yearly"@ {
        RuleModel::Yearly
    } else {
        RuleModel::NoRepeat
    }
}

pub open spec fn day_texts(days: Seq<u8>) -> Seq<Seq<char>> {
    Seq::new(days.len(), |k: int| decimal(days[k] as nat))
}

/// The stored text of a rule (`Display` for `RepeatRule`).
pub open spec fn rule_text(r: RuleModel) -> Seq<char> {
    match r {
        RuleModel::NoRepeat => "none"@,
        RuleModel::Daily => "daily"@,
        RuleModel::Weekly => "weekly"@,
        RuleModel::WeeklyOn(days) => "weekly:"@ + join(day_texts(days), ","@),
        RuleModel::Monthly => "monthly"@,
        RuleModel::MonthlyNth(n, w) => "monthly-nth:"@ + decimal(n as nat) + ":"@ + decimal(
            w as nat,
        ),
        RuleModel::Yearly => "yearly"@,
    }
}

fn collect_weekdays(pieces: &Vec<Vec<char>>) -> (days: Vec<u8>)
    ensures
        days@ == weekday_list(views(pieces@)),
{
    let mut days: Vec<u8> = Vec::new();
    let mut i: usize = 0;
    while i < pieces.len()
        invariant
            i <= pieces.len(),
            days@ == weekday_list(views(pieces@).take(i as int)),
        decreases pieces.len() - i,
    {
        let t = trim_chars(&pieces[i]);
        let parsed = parse_u8(&t);
        proof {
            let vs = views(pieces@).take(i + 1);
            assert(vs.drop_last() =~= views(pieces@).take(i as int));
            assert(vs.last() == pieces@[i as int]@);
        }
        match parsed {
            Some(v) => {
                if v < 7 {
                    days.push(v);
                }
            },
            None => {},
        }
        i = i + 1;
    }
    assert(views(pieces@).take(pieces.len() as int) =~= views(pieces@));
    days
}

fn nth_parts_exec(rest: &Vec<char>) -> (r: Option<(u8, u8)>)
    ensures
        r == nth_parts(rest@),
{
    let parts = split_chars(rest, ':');
    if parts.len() >= 2 {
        assert(views(parts@)[0] == parts@[0]@);
        assert(views(parts@)[1] == parts@[1]@);
        match (parse_u8(&parts[0]), parse_u8(&parts[1])) {
            (Some(n), Some(w)) => {
                if 1 <= n && n <= 5 && w < 7 {
                    Some((n, w))
                } else {
                    None
                }
            },
            _ => None,
        }
    } else {
        None
    }
}

impl RepeatRule {
    /// A copy of the rule (`clone`, with its result stated).
    pub fn copied(&self) -> (c: RepeatRule)
        ensures
            c@ == self@,
    {
        match self {
            RepeatRule::NoRepeat => RepeatRule::NoRepeat,
            RepeatRule::Daily => RepeatRule::Daily,
            RepeatRule::Weekly => RepeatRule::Weekly,
            RepeatRule::WeeklyOn(days) => {
                let mut out: Vec<u8> = Vec::new();
                let mut i: usize = 0;
                while i < days.len()
                    invariant
                        i <= days.len(),
                        out@ == days@.take(i as int),
                    decreases days.len() - i,
                {
                    out.push(days[i]);
                    assert(days@.take(i + 1) =~= days@.take(i as int).push(days@[i as int]));
                    i = i + 1;
                }
                assert(days@.take(days.len() as int) =~= days@);
                RepeatRule::WeeklyOn(out)
            },
            RepeatRule::Monthly => RepeatRule::Monthly,
            RepeatRule::MonthlyNth(n, w) => RepeatRule::MonthlyNth(*n, *w),
            RepeatRule::Yearly => RepeatRule::Yearly,
        }
    }

    /// Reads a stored rule; unknown or malformed text means no repetition.
    pub fn parse(s: &str) -> (r: RepeatRule)
        ensures
            r@ == parse_rule(s@),
    {
        let t = trim_str(s);
        if let Some(rest) = strip_prefix_str(&t, "weekly:") {
            let pieces = split_chars(&rest, ',');
            let days = collect_weekdays(&pieces);
            if days.len() > 0 {
                return RepeatRule::WeeklyOn(days);
            }
        }
        if let Some(rest) = strip_prefix_str(&t, "monthly-nth:") {
            if let Some((n, w)) = nth_parts_exec(&rest) {
                return RepeatRule::MonthlyNth(n, w);
            }
        }
        if eq_str(&t, "daily") {
            RepeatRule::Daily
        } else if eq_str(&t, "weekly") {
            RepeatRule::Weekly
        } else if eq_str(&t, "monthly") {
            RepeatRule::Monthly
        } else if eq_str(&t, "yearly") {
            RepeatRule::Yearly
        } else {
            RepeatRule::NoRepeat
        }
    }

    /// The stored text of the rule, as characters.
    pub fn text_chars(&self) -> (r: Vec<char>)
        ensures
            r@ == rule_text(self@),
    {
        match self {
            RepeatRule::NoRepeat => chars_of("none"),
            RepeatRule::Daily => chars_of("daily"),
            RepeatRule::Weekly => chars_of("weekly"),
            RepeatRule::WeeklyOn(days) => {
                let mut pieces: Vec<Vec<char>> = Vec::new();
                let mut i: usize = 0;
                while i < days.len()
                    invariant
                        i <= days.len(),
                        views(pieces@) == day_texts(days@).take(i as int),
                    decreases days.len() - i,
                {
                    let d = decimal_u64(days[i] as u64);
                    let ghost before = views(pieces@);
                    pieces.push(d);
                    assert(views(pieces@) =~= before.push(d@));
                    assert(day_texts(days@).take(i + 1) =~= day_texts(days@).take(i as int).push(
                        d@,
                    ));
                    i = i + 1;
                }
                assert(day_texts(days@).take(days.len() as int) =~= day_texts(days@));
                let sep = chars_of(",");
                let joined = join_chars(&pieces, &sep);
                let mut out = chars_of("weekly:");
                append_all(&mut out, &joined);
                out
            },
            RepeatRule::Monthly => chars_of("monthly"),
            RepeatRule::MonthlyNth(n, w) => {
                let mut out = chars_of("monthly-nth:");
                let nd = decimal_u64(*n as u64);
                append_all(&mut out, &nd);
                append_str(&mut out, ":");
                let wd = decimal_u64(*w as u64);
                append_all(&mut out, &wd);
                out
            },
            RepeatRule::Yearly => chars_of("yearly"),
        }
    }

    /// The stored text of the rule (`to_string()` of the original `Display`).
    pub fn to_rule_string(&self) -> (s: String)
        ensures
            s@ == rule_text(self@),
    {
        let v = self.text_chars();
        string_from_chars(&v)
    }
}


// ------------------------------------------------------------------
// The stored text reads back as the rule
// ------------------------------------------------------------------

proof fn lemma_weekday_list_of_texts(days: Seq<u8>)
    requires
        forall|k: int| 0 <= k < days.len() ==> #[trigger] days[k] < 7,
    ensures
        weekday_list(day_texts(days)) == days,
    decreases days.len(),
{
    if days.len() > 0 {
        let d = days.last();
        assert(day_texts(days).drop_last() =~= day_texts(days.drop_last()));
        assert(day_texts(days).last() == decimal(d as nat));
        lemma_decimal_plain(d as nat, ' ');
        lemma_trim_id(decimal(d as nat));
        lemma_parse_decimal(d as nat);
        lemma_decimal_digits(d as nat);
        assert(decimal(d as nat)[0] != '+');
        lemma_weekday_list_of_texts(days.drop_last());
        assert(days.drop_last().push(d) =~= days);
    }
}

/// Writing a rule down and reading the text back gives the same rule, for every rule
/// within its documented ranges.
pub proof fn lemma_rule_text_round_trip(r: RuleModel)
    requires
        rule_wf(r),
    ensures
        parse_rule(rule_text(r)) == r,
{
    reveal_strlit("weekly:");
    reveal_strlit("monthly-nth:");
    reveal_strlit("daily");
    reveal_strlit("weekly");
    reveal_strlit("monthly");
    reveal_strlit("yearly");
    reveal_strlit("none");
    reveal_strlit(",");
    reveal_strlit(":");
    let t = rule_text(r);
    match r {
        RuleModel::WeeklyOn(days) => {
            let texts = day_texts(days);
            assert forall|k: int| 0 <= k < texts.len() implies !(#[trigger] texts[k]).contains(
                ',',
            ) by {
                lemma_decimal_plain(days[k] as nat, ',');
            }
            lemma_split_join(texts, ',');
            lemma_decimal_digits(days.last() as nat);
            lemma_decimal_plain(days.last() as nat, ' ');
            lemma_join_last(texts, ","@);
            let joined = join(texts, ","@);
            assert(t == "weekly:"@ + joined);
            assert(t.last() == joined.last());
            lemma_trim_id(t);
            assert(t.subrange(7, t.len() as int) =~= joined);
            assert(","@ =~= seq![',']);
            assert(joined == join(texts, seq![',']));
            assert(split(t.subrange(7, t.len() as int), ',') == texts);
            assert(t.subrange(0, 7) =~= "weekly:"@);
            assert(starts_with(t, "weekly:"@));
            lemma_weekday_list_of_texts(days);
            assert(weekday_list(split(t.subrange(7, t.len() as int), ',')) == days);
            assert(trim(t) == t);
            assert("weekly:"@.len() == 7);
            assert(days.len() > 0);
            assert(parse_rule(t) == RuleModel::WeeklyOn(days));
        },
        RuleModel::MonthlyNth(n, w) => {
            let dn = decimal(n as nat);
            let dw = decimal(w as nat);
            lemma_decimal_digits(w as nat);
            lemma_decimal_plain(w as nat, ' ');
            lemma_decimal_plain(n as nat, ':');
            lemma_decimal_plain(w as nat, ':');
            assert(t.last() == dw.last());
            lemma_trim_id(t);
            let rest = t.subrange(12, t.len() as int);
            assert(rest =~= dn + seq![':'] + dw);
            lemma_split_single(dw, ':');
            lemma_split_cons(dn, ':', dw);
            assert(split(rest, ':') =~= seq![dn, dw]);
            lemma_parse_decimal(n as nat);
            lemma_parse_decimal(w as nat);
            lemma_decimal_plain(n as nat, '+');
            lemma_decimal_plain(w as nat, '+');
            assert(t[0] == 'm');
            assert(t.subrange(0, 7)[0] != "weekly:"@[0]);
            assert(!starts_with(t, "weekly:"@));
            assert(t.subrange(0, 12) =~= "monthly-nth:"@);
            assert(parse_u8_spec(dn) == Some(n as int));
            assert(parse_u8_spec(dw) == Some(w as int));
            assert(nth_parts(rest) == Some((n, w)));
            assert(trim(t) == t);
            assert(parse_rule(t) == r);
        },
        RuleModel::NoRepeat => {
            lemma_trim_id(t);
            assert(parse_rule(t) == r);
        },
        RuleModel::Daily => {
            lemma_trim_id(t);
            assert(parse_rule(t) == r);
        },
        RuleModel::Weekly => {
            lemma_trim_id(t);
            assert(parse_rule(t) == r);
        },
        RuleModel::Monthly => {
            lemma_trim_id(t);
            assert(parse_rule(t) == r);
        },
        RuleModel::Yearly => {
            lemma_trim_id(t);
            assert(parse_rule(t) == r);
        },
    }
}

// ------------------------------------------------------------------
// Descriptions shown in the interface
// ------------------------------------------------------------------

/// Chinese short name of a weekday (0 = Monday).
pub open spec fn weekday_label(d: int) -> Seq<char> {
    let k = d % 7;
    if k == 0 {
        "一"@
    } else if k == 1 {
        "二"@
    } else if k == 2 {
        "三"@
    } else if k == 3 {
        "四"@
    } else if k == 4 {
        "五"@
    } else if k == 5 {
        "六"@
    } else {
        "日"@
    }
}

pub open spec fn weekday_labels(days: Seq<u8>) -> Seq<Seq<char>> {
    Seq::new(days.len(), |k: int| weekday_label(days[k] as int))
}

/// The interface text of a rule, e.g. "每周一/三/五重复" or "每月第3个周五重复".
pub open spec fn describe_text(r: RuleModel) -> Seq<char> {
    match r {
        RuleModel::NoRepeat => seq![],
        RuleModel::Daily => "每天重复"@,
        RuleModel::Weekly => "每周重复"@,
        RuleModel::WeeklyOn(days) => "每周"@ + join(weekday_labels(days), "/"@) + "重复"@,
        RuleModel::Monthly => "每月重复"@,
        RuleModel::MonthlyNth(n, w) => "每月第"@ + decimal(n as nat) + "个周"@ + weekday_label(
            w as int,
        ) + "重复"@,
        RuleModel::Yearly => "每年重复"@,
    }
}

pub fn weekday_label_chars(d: u8) -> (r: Vec<char>)
    ensures
        r@ == weekday_label(d as int),
{
    let k = d % 7;
    if k == 0 {
        chars_of("一")
    } else if k == 1 {
        chars_of("二")
    } else if k == 2 {
        chars_of("三")
    } else if k == 3 {
        chars_of("四")
    } else if k == 4 {
        chars_of("五")
    } else if k == 5 {
        chars_of("六")
    } else {
        chars_of("日")
    }
}

pub fn describe_chars(rule: &RepeatRule) -> (r: Vec<char>)
    ensures
        r@ == describe_text(rule@),
{
    match rule {
        RepeatRule::NoRepeat => Vec::new(),
        RepeatRule::Daily => chars_of("每天重复"),
        RepeatRule::Weekly => chars_of("每周重复"),
        RepeatRule::WeeklyOn(days) => {
            let mut pieces: Vec<Vec<char>> = Vec::new();
            let mut i: usize = 0;
            while i < days.len()
                invariant
                    i <= days.len(),
                    views(pieces@) == weekday_labels(days@).take(i as int),
                decreases days.len() - i,
            {
                let l = weekday_label_chars(days[i]);
                let ghost before = views(pieces@);
                pieces.push(l);
                assert(views(pieces@) =~= before.push(l@));
                assert(weekday_labels(days@).take(i + 1) =~= weekday_labels(days@).take(
                    i as int,
                ).push(l@));
                i = i + 1;
            }
            assert(weekday_labels(days@).take(days.len() as int) =~= weekday_labels(days@));
            let sep = chars_of("/");
            let joined = join_chars(&pieces, &sep);
            let mut out = chars_of("每周");
            append_all(&mut out, &joined);
            append_str(&mut out, "重复");
            out
        },
        RepeatRule::Monthly => chars_of("每月重复"),
        RepeatRule::MonthlyNth(n, w) => {
            let mut out = chars_of("每月第");
            let nd = decimal_u64(*n as u64);
            append_all(&mut out, &nd);
            append_str(&mut out, "个周");
            let l = weekday_label_chars(*w);
            append_all(&mut out, &l);
            append_str(&mut out, "重复");
            out
        },
        RepeatRule::Yearly => chars_of("每年重复"),
    }
}

/// Interface text of a rule, e.g. "每周一/三/五重复"; empty for no repetition.
pub fn describe(rule: &RepeatRule) -> (s: String)
    ensures
        s@ == describe_text(rule@),
{
    let v = describe_chars(rule);
    string_from_chars(&v)
}

// ------------------------------------------------------------------
// Occurrences
// ------------------------------------------------------------------

pub open spec fn dns(v: Seq<Date>) -> Seq<int> {
    Seq::new(v.len(), |k: int| v[k].dn())
}

pub open spec fn all_wf(v: Seq<Date>) -> bool {
    forall|k: int| 0 <= k < v.len() ==> (#[trigger] v[k]).wf()
}

/// The candidate day numbers that lie within `[lo, hi]`, in candidate order.
pub open spec fn picks(c: Seq<Option<int>>, lo: int, hi: int) -> Seq<int>
    decreases c.len(),
{
    if c.len() == 0 {
        seq![]
    } else {
        let rest = picks(c.drop_last(), lo, hi);
        match c.last() {
            Some(x) => if lo <= x && x <= hi {
                rest.push(x)
            } else {
                rest
            },
            None => rest,
        }
    }
}

/// Weekday of a day number (0 = Monday).
pub open spec fn weekday_of(x: int) -> int {
    (x - 1) % 7
}

/// The same day of the month, `i` months after `b`, if that date exists.
pub open spec fn month_shift(b: Date, i: int) -> Option<int> {
    let t = b.year * 12 + b.month - 1 + i;
    let y = t / 12;
    let m = t % 12 + 1;
    if valid_ymd(y, m, b.day as int) {
        Some(ymd_number(y, m, b.day as int))
    } else {
        None
    }
}

/// The same month and day, `i` years after `b`, if that date exists.
pub open spec fn year_shift(b: Date, i: int) -> Option<int> {
    let y = b.year + i;
    if valid_ymd(y, b.month as int, b.day as int) {
        Some(ymd_number(y, b.month as int, b.day as int))
    } else {
        None
    }
}

/// Day of the month of the n-th weekday `w` of a month (may exceed the month).
pub open spec fn nth_day(y: int, m: int, nth: int, w: int) -> int {
    1 + (w - weekday_of(ymd_number(y, m, 1))) % 7 + (nth - 1) * 7
}

/// The n-th weekday `w` (0 = Monday) of a month, if the month has one.
pub open spec fn nth_weekday(y: int, m: int, nth: int, w: int) -> Option<int> {
    if valid_ymd(y, m, 1) && 1 <= nth_day(y, m, nth, w) <= days_in_month(y, m) {
        Some(ymd_number(y, m, 1) + nth_day(y, m, nth, w) - 1)
    } else {
        None
    }
}

/// First day examined for a `weekly:` rule: the base date, or a week before the start.
pub open spec fn scan_start(b: int, s: int) -> int {
    if b >= s - 7 {
        b
    } else {
        s - 7
    }
}

/// The i-th candidate occurrence of a rule with first occurrence `b`.
pub open spec fn candidate(r: RuleModel, b: Date, s: int, i: int) -> Option<int> {
    match r {
        RuleModel::NoRepeat => Some(b.dn()),
        RuleModel::Daily => Some(b.dn() + i),
        RuleModel::Weekly => Some(b.dn() + 7 * i),
        RuleModel::WeeklyOn(days) => {
            let x = scan_start(b.dn(), s) + i;
            if days.contains(weekday_of(x) as u8) {
                Some(x)
            } else {
                None
            }
        },
        RuleModel::Monthly => month_shift(b, i),
        RuleModel::MonthlyNth(n, w) => {
            let t = b.year * 12 + b.month - 1 + i;
            nth_weekday(t / 12, t % 12 + 1, n as int, w as int)
        },
        RuleModel::Yearly => year_shift(b, i),
    }
}

/// How many candidates are examined: 1000 steps, about 20 years of days for weekday
/// lists, 240 months for the n-th weekday form.
pub open spec fn candidate_count(r: RuleModel) -> int {
    match r {
        RuleModel::NoRepeat => 1,
        RuleModel::WeeklyOn(_) => 7300,
        RuleModel::MonthlyNth(_, _) => 240,
        _ => 1000,
    }
}

pub open spec fn candidates(r: RuleModel, b: Date, s: int) -> Seq<Option<int>> {
    Seq::new(candidate_count(r) as nat, |i: int| candidate(r, b, s, i))
}

/// The day numbers on which an event with first occurrence `b` and rule `r` occurs
/// within `[s, e]`: the candidates of the rule that fall in the range (and, for the
/// weekday-list and n-th weekday forms, not before `b`), in order.
pub open spec fn occurrence_days(r: RuleModel, b: Date, s: Date, e: Date) -> Seq<int> {
    if e.dn() < b.dn() {
        seq![]
    } else {
        let lo = match r {
            RuleModel::WeeklyOn(_) => if b.dn() >= s.dn() {
                b.dn()
            } else {
                s.dn()
            },
            RuleModel::MonthlyNth(_, _) => if b.dn() >= s.dn() {
                b.dn()
            } else {
                s.dn()
            },
            _ => s.dn(),
        };
        picks(candidates(r, b, s.dn()), lo, e.dn())
    }
}

/// Month index of the last month that dates reach.
pub open spec fn last_month_index() -> int {
    MAX_YEAR * 12 + 11
}

/// The expansion stays within the supported dates: a weekly step never passes the last
/// date, a weekday list can look a week before the start, and the n-th weekday form
/// never needs a day past the end of the last month.
pub open spec fn expansion_in_range(r: RuleModel, b: Date, s: Date, e: Date) -> bool {
    match r {
        RuleModel::Weekly => e.dn() < b.dn() || b.dn() + 7 * (if (e.dn() - b.dn()) / 7 <= 999 {
            (e.dn() - b.dn()) / 7
        } else {
            999
        }) + 7 <= max_day_number(),
        RuleModel::WeeklyOn(_) => s.dn() - 7 >= min_day_number(),
        RuleModel::MonthlyNth(n, w) => {
            let j = last_month_index() - (b.year * 12 + b.month - 1);
            !(0 <= j < 240 && (j == 0 || ymd_number(MAX_YEAR as int, 12, 1) <= e.dn())
                && nth_day(MAX_YEAR as int, 12, n as int, w as int) > 31)
        },
        _ => true,
    }
}

/// The candidates that exist come in increasing order.
pub open spec fn increasing_somes(c: Seq<Option<int>>) -> bool {
    forall|i: int, j: int|
        0 <= i < j < c.len() && (#[trigger] c[i]) is Some && (#[trigger] c[j]) is Some ==> c[i]->0
            < c[j]->0
}

proof fn lemma_picks_bounds(c: Seq<Option<int>>, lo: int, hi: int)
    ensures
        forall|k: int|
            0 <= k < picks(c, lo, hi).len() ==> lo <= #[trigger] picks(c, lo, hi)[k] <= hi,
    decreases c.len(),
{
    if c.len() > 0 {
        let d = c.drop_last();
        lemma_picks_bounds(d, lo, hi);
        let p = picks(c, lo, hi);
        let pd = picks(d, lo, hi);
        assert forall|k: int| 0 <= k < p.len() implies lo <= #[trigger] p[k] <= hi by {
            if k < pd.len() {
                assert(p[k] == pd[k]);
            }
        }
    }
}

/// The occurrence days of a rule lie within the range, never before the first
/// occurrence of the weekday forms, and come in increasing order.
proof fn lemma_occurrence_days_facts(r: RuleModel, b: Date, s: Date, e: Date)
    requires
        b.wf(),
    ensures
        forall|k: int|
            0 <= k < occurrence_days(r, b, s, e).len() ==> s.dn() <= #[trigger] occurrence_days(
                r,
                b,
                s,
                e,
            )[k] <= e.dn(),
        forall|i: int, j: int|
            0 <= i < j < occurrence_days(r, b, s, e).len() ==> occurrence_days(r, b, s, e)[i]
                < occurrence_days(r, b, s, e)[j],
{
    if e.dn() >= b.dn() {
        let lo = match r {
            RuleModel::WeeklyOn(_) => if b.dn() >= s.dn() {
                b.dn()
            } else {
                s.dn()
            },
            RuleModel::MonthlyNth(_, _) => if b.dn() >= s.dn() {
                b.dn()
            } else {
                s.dn()
            },
            _ => s.dn(),
        };
        let c = candidates(r, b, s.dn());
        lemma_candidates_increasing(r, b, s.dn());
        lemma_picks_bounds(c, lo, e.dn());
        lemma_picks_increasing(c, lo, e.dn());
    }
}

/// Every picked value is one of the candidates, at an index up to the last.
proof fn lemma_picks_members(c: Seq<Option<int>>, lo: int, hi: int)
    ensures
        forall|k: int|
            0 <= k < picks(c, lo, hi).len() ==> exists|i: int|
                0 <= i < c.len() && #[trigger] c[i] == Some(#[trigger] picks(c, lo, hi)[k]),
    decreases c.len(),
{
    if c.len() > 0 {
        let d = c.drop_last();
        lemma_picks_members(d, lo, hi);
        let p = picks(c, lo, hi);
        assert forall|k: int| 0 <= k < p.len() implies exists|i: int|
            0 <= i < c.len() && #[trigger] c[i] == Some(#[trigger] p[k]) by {
            if k < picks(d, lo, hi).len() {
                let i = choose|i: int| 0 <= i < d.len() && #[trigger] d[i] == Some(
                    picks(d, lo, hi)[k],
                );
                assert(c[i] == d[i]);
            } else {
                assert(c[c.len() - 1] == Some(p[k]));
            }
        }
    }
}

proof fn lemma_picks_increasing(c: Seq<Option<int>>, lo: int, hi: int)
    requires
        increasing_somes(c),
    ensures
        forall|i: int, j: int|
            0 <= i < j < picks(c, lo, hi).len() ==> picks(c, lo, hi)[i] < picks(c, lo, hi)[j],
    decreases c.len(),
{
    if c.len() > 0 {
        let d = c.drop_last();
        assert(increasing_somes(d)) by {
            assert forall|i: int, j: int|
                0 <= i < j < d.len() && (#[trigger] d[i]) is Some && (#[trigger] d[j]) is Some
                implies d[i]->0 < d[j]->0 by {
                assert(d[i] == c[i] && d[j] == c[j]);
            }
        }
        lemma_picks_increasing(d, lo, hi);
        lemma_picks_members(d, lo, hi);
        let pd = picks(d, lo, hi);
        let p = picks(c, lo, hi);
        if p.len() > pd.len() {
            assert forall|i: int, j: int| 0 <= i < j < p.len() implies p[i] < p[j] by {
                if j == p.len() - 1 {
                    let m = choose|m: int| 0 <= m < d.len() && #[trigger] d[m] == Some(pd[i]);
                    assert(c[m] == d[m]);
                    assert(c[c.len() - 1] == Some(p[j]));
                } else {
                    assert(p[i] == pd[i] && p[j] == pd[j]);
                }
            }
        }
    }
}

proof fn lemma_candidates_increasing(r: RuleModel, b: Date, s: int)
    requires
        b.wf(),
    ensures
        increasing_somes(candidates(r, b, s)),
{
    let c = candidates(r, b, s);
    assert forall|i: int, j: int|
        0 <= i < j < c.len() && (#[trigger] c[i]) is Some && (#[trigger] c[j]) is Some implies c[i]->0
        < c[j]->0 by {
        match r {
            RuleModel::Monthly => {
                lemma_month_shift_mono(b, i, j);
            },
            RuleModel::Yearly => {
                lemma_year_shift_mono(b, i, j);
            },
            RuleModel::MonthlyNth(n, w) => {
                let ti = b.year * 12 + b.month - 1 + i;
                let tj = b.year * 12 + b.month - 1 + j;
                lemma_nth_after(ti, tj, nth_day(ti / 12, ti % 12 + 1, n as int, w as int), n as int, w as int);
            },
            _ => {},
        }
    }
}

proof fn lemma_picks_step(c: Seq<Option<int>>, i: int, lo: int, hi: int)
    requires
        0 <= i < c.len(),
    ensures
        picks(c.take(i + 1), lo, hi) == (match c[i] {
            Some(x) => if lo <= x && x <= hi {
                picks(c.take(i), lo, hi).push(x)
            } else {
                picks(c.take(i), lo, hi)
            },
            None => picks(c.take(i), lo, hi),
        }),
{
    assert(c.take(i + 1).drop_last() =~= c.take(i));
    assert(c.take(i + 1).last() == c[i]);
}

proof fn lemma_picks_tail(c: Seq<Option<int>>, i: int, lo: int, hi: int)
    requires
        0 <= i <= c.len(),
        forall|j: int| i <= j < c.len() ==> (#[trigger] c[j] is None || c[j]->0 > hi),
    ensures
        picks(c, lo, hi) == picks(c.take(i), lo, hi),
    decreases c.len(),
{
    if c.len() == i {
        assert(c.take(i) =~= c);
    } else {
        let d = c.drop_last();
        assert(c[c.len() - 1] is None || c[c.len() - 1]->0 > hi);
        assert forall|j: int| i <= j < d.len() implies (#[trigger] d[j] is None || d[j]->0
            > hi) by {
            assert(d[j] == c[j]);
        }
        lemma_picks_tail(d, i, lo, hi);
        assert(d.take(i) =~= c.take(i));
    }
}

/// An empty range picks nothing.
proof fn lemma_picks_none_in(c: Seq<Option<int>>, lo: int, hi: int)
    requires
        hi < lo,
    ensures
        picks(c, lo, hi) == Seq::<int>::empty(),
    decreases c.len(),
{
    if c.len() > 0 {
        lemma_picks_none_in(c.drop_last(), lo, hi);
    }
}

proof fn lemma_picks_full(c: Seq<Option<int>>, lo: int, hi: int)
    ensures
        picks(c.take(c.len() as int), lo, hi) == picks(c, lo, hi),
{
    assert(c.take(c.len() as int) =~= c);
}

proof fn lemma_dns_push(v: Seq<Date>, d: Date)
    ensures
        dns(v.push(d)) == dns(v).push(d.dn()),
{
    assert(dns(v.push(d)) =~= dns(v).push(d.dn()));
}

/// Later months give later dates.
proof fn lemma_month_order(y1: int, m1: int, d1: int, y2: int, m2: int, d2: int)
    requires
        valid_ymd(y1, m1, d1),
        valid_ymd(y2, m2, d2),
        y1 * 12 + m1 < y2 * 12 + m2,
    ensures
        ymd_number(y1, m1, d1) < ymd_number(y2, m2, d2),
{
    let a = Date { year: y1 as i32, month: m1 as u32, day: d1 as u32 };
    let b = Date { year: y2 as i32, month: m2 as u32, day: d2 as u32 };
    crate::date::lemma_dn_lex(a, b);
}

proof fn lemma_month_shift_mono(b: Date, i: int, j: int)
    requires
        b.wf(),
        i < j,
        month_shift(b, i) is Some,
        month_shift(b, j) is Some,
    ensures
        month_shift(b, i)->0 < month_shift(b, j)->0,
{
    let ti = b.year * 12 + b.month - 1 + i;
    let tj = b.year * 12 + b.month - 1 + j;
    lemma_month_order(ti / 12, ti % 12 + 1, b.day as int, tj / 12, tj % 12 + 1, b.day as int);
}

proof fn lemma_year_shift_mono(b: Date, i: int, j: int)
    requires
        b.wf(),
        i < j,
        year_shift(b, i) is Some,
        year_shift(b, j) is Some,
    ensures
        year_shift(b, i)->0 < year_shift(b, j)->0,
{
    lemma_month_order(
        b.year + i,
        b.month as int,
        b.day as int,
        b.year + j,
        b.month as int,
        b.day as int,
    );
}

/// The n-th weekday of a later month comes after any day of an earlier month.
proof fn lemma_nth_after(ti: int, tj: int, d: int, nth: int, w: int)
    requires
        ti < tj,
        valid_ymd(ti / 12, ti % 12 + 1, d),
        nth_weekday(tj / 12, tj % 12 + 1, nth, w) is Some,
    ensures
        ymd_number(ti / 12, ti % 12 + 1, d) < nth_weekday(tj / 12, tj % 12 + 1, nth, w)->0,
{
    let (y2, m2) = (tj / 12, tj % 12 + 1);
    let day = nth_day(y2, m2, nth, w);
    assert(day >= 1);
    lemma_month_order(ti / 12, ti % 12 + 1, d, y2, m2, day);
}

fn contains_u8(v: &Vec<u8>, x: u8) -> (r: bool)
    ensures
        r == v@.contains(x),
{
    let mut i: usize = 0;
    while i < v.len()
        invariant
            i <= v.len(),
            forall|k: int| 0 <= k < i ==> v@[k] != x,
        decreases v.len() - i,
    {
        if v[i] == x {
            return true;
        }
        i = i + 1;
    }
    false
}

/// `n` months after `base`, on the same day of the month, if that date exists.
fn add_months(base: &Date, n: i32) -> (r: Option<Date>)
    requires
        base.wf(),
        0 <= n < 1000,
    ensures
        r is Some <==> month_shift(*base, n as int) is Some,
        r matches Some(d) ==> d.wf() && month_shift(*base, n as int) == Some(d.dn()),
{
    let total: i64 = base.year as i64 * 12 + base.month as i64 - 1 + n as i64;
    let shifted: i64 = total + 12 * 300000;
    let year: i64 = shifted / 12 - 300000;
    let month: i64 = shifted % 12 + 1;
    assert(year == total / 12);
    assert(month == total % 12 + 1);
    Date::from_ymd_opt(year as i32, month as u32, base.day)
}

/// `n` years after `base`, on the same month and day, if that date exists.
fn add_years(base: &Date, n: i32) -> (r: Option<Date>)
    requires
        base.wf(),
        0 <= n < 1000,
    ensures
        r is Some <==> year_shift(*base, n as int) is Some,
        r matches Some(d) ==> d.wf() && year_shift(*base, n as int) == Some(d.dn()),
{
    Date::from_ymd_opt(base.year + n, base.month, base.day)
}

/// The n-th weekday `w` of a month (0 = Monday), if the month has one.
fn nth_weekday_of_month(year: i32, month: u32, nth: u8, weekday: u8) -> (r: Option<Date>)
    requires
        1 <= month <= 12,
    ensures
        r is Some <==> nth_weekday(year as int, month as int, nth as int, weekday as int) is Some,
        r matches Some(d) ==> d.wf() && nth_weekday(
            year as int,
            month as int,
            nth as int,
            weekday as int,
        ) == Some(d.dn()),
{
    let first = Date::from_ymd_opt(year, month, 1)?;
    let first_weekday = first.weekday_from_monday();
    let offset: u32 = (weekday as u32 + 7 - first_weekday) % 7;
    assert(offset == (weekday - first.weekday()) % 7) by {
        assert((weekday as int + 7 - first.weekday()) % 7 == (weekday as int - first.weekday()) % 7) by (nonlinear_arith)
            requires
                0 <= first.weekday() < 7;
    }
    let day: i64 = 1 + offset as i64 + (nth as i64 - 1) * 7;
    if 1 <= day && day <= crate::date::month_length(year, month) as i64 {
        Some(Date { year, month, day: day as u32 })
    } else {
        None
    }
}

fn expand_once(base: Date, start: Date, end: Date) -> (out: Vec<Date>)
    requires
        base.wf(),
        start.wf(),
        end.wf(),
    ensures
        all_wf(out@),
        dns(out@) == picks(candidates(RuleModel::NoRepeat, base, start.dn()), start.dn(), end.dn()),
{
    let ghost b = base.dn();
    let ghost s = start.dn();
    let ghost e = end.dn();
    let ghost r = RuleModel::NoRepeat;
    let ghost c = candidates(r, base, s);
    let mut out: Vec<Date> = Vec::new();
    if !base.is_before(&start) && !end.is_before(&base) {
        out.push(base);
    }
    proof {
        lemma_picks_step(c, 0, s, e);
        assert(c.take(1) =~= c);
        assert(c.take(0) =~= Seq::<Option<int>>::empty());
        lemma_dns_push(Seq::<Date>::empty(), base);
        assert(dns(Seq::<Date>::empty()) =~= Seq::<int>::empty());
        assert(picks(Seq::<Option<int>>::empty(), s, e) =~= Seq::<int>::empty());
    }
    out
}

fn expand_daily(base: Date, start: Date, end: Date) -> (out: Vec<Date>)
    requires
        base.wf(),
        start.wf(),
        end.wf(),
    ensures
        all_wf(out@),
        dns(out@) == picks(candidates(RuleModel::Daily, base, start.dn()), start.dn(), end.dn()),
{
    let ghost b = base.dn();
    let ghost s = start.dn();
    let ghost e = end.dn();
    let ghost r = RuleModel::Daily;
    let ghost c = candidates(r, base, s);
    let mut out: Vec<Date> = Vec::new();
    let mut d = base;
    let mut i: usize = 0;
    while i < 1000
        invariant
            r == RuleModel::Daily,
            r is Daily,
            c == candidates(r, base, s),
            i <= 1000,
            d.wf(),
            d.dn() == b + i,
            all_wf(out@),
            dns(out@) == picks(c.take(i as int), s, e),
            b == base.dn(),
            s == start.dn(),
            e == end.dn(),
            end.wf(),
            start.wf(),
        decreases 1000 - i,
    {
        proof {
            lemma_picks_step(c, i as int, s, e);
        }
        if end.is_before(&d) {
            proof {
                lemma_picks_tail(c, i as int, s, e);
            }
            return out;
        }
        if !d.is_before(&start) {
            proof {
                lemma_dns_push(out@, d);
            }
            out.push(d);
        }
        match d.succ_opt() {
            Some(next) => {
                d = next;
            },
            None => {
                proof {
                    crate::date::lemma_dn_range(end);
                    lemma_picks_tail(c, i + 1, s, e);
                }
                return out;
            },
        }
        i = i + 1;
    }
    proof {
        lemma_picks_full(c, s, e);
    }
    out
}

fn expand_weekly(base: Date, start: Date, end: Date) -> (out: Vec<Date>)
    requires
        base.wf(),
        start.wf(),
        end.wf(),
        end.dn() >= base.dn(),
        expansion_in_range(RuleModel::Weekly, base, start, end),
    ensures
        all_wf(out@),
        dns(out@) == picks(candidates(RuleModel::Weekly, base, start.dn()), start.dn(), end.dn()),
{
    let ghost b = base.dn();
    let ghost s = start.dn();
    let ghost e = end.dn();
    let ghost r = RuleModel::Weekly;
    let ghost c = candidates(r, base, s);
    let mut out: Vec<Date> = Vec::new();
    let mut d = base;
    let mut i: usize = 0;
    while i < 1000
        invariant
            r == RuleModel::Weekly,
            r is Weekly,
            c == candidates(r, base, s),
            i <= 1000,
            d.wf(),
            d.dn() == b + 7 * i,
            all_wf(out@),
            dns(out@) == picks(c.take(i as int), s, e),
            b == base.dn(),
            s == start.dn(),
            e == end.dn(),
            e >= b,
            expansion_in_range(r, base, start, end),
            end.wf(),
            start.wf(),
        decreases 1000 - i,
    {
        proof {
            lemma_picks_step(c, i as int, s, e);
        }
        if end.is_before(&d) {
            proof {
                lemma_picks_tail(c, i as int, s, e);
            }
            return out;
        }
        if !d.is_before(&start) {
            proof {
                lemma_dns_push(out@, d);
            }
            out.push(d);
        }
        proof {
            assert(i <= (e - b) / 7);
        }
        d = d.add_days(7).unwrap();
        i = i + 1;
    }
    proof {
        lemma_picks_full(c, s, e);
    }
    out
}

fn expand_weekly_on(base: Date, days: Vec<u8>, start: Date, end: Date) -> (out: Vec<Date>)
    requires
        base.wf(),
        start.wf(),
        end.wf(),
        start.dn() - 7 >= min_day_number(),
    ensures
        all_wf(out@),
        dns(out@) == picks(candidates(RuleModel::WeeklyOn(days@), base, start.dn()), (if base.dn() >= start.dn() { base.dn() } else { start.dn() }), end.dn()),
{
    let ghost b = base.dn();
    let ghost s = start.dn();
    let ghost e = end.dn();
    let ghost r = RuleModel::WeeklyOn(days@);
    let ghost c = candidates(r, base, s);
    let mut out: Vec<Date> = Vec::new();
    let back = start.add_days(-7).unwrap();
    let scan = if back.is_before(&base) {
        base
    } else {
        back
    };
    let ghost lo: int = if b >= s {
        b
    } else {
        s
    };
    let mut d = scan;
    let mut i: usize = 0;
    while i < 7300
        invariant
            r == RuleModel::WeeklyOn(days@),
            c == candidates(r, base, s),
            i <= 7300,
            d.wf(),
            d.dn() == scan_start(b, s) + i,
            all_wf(out@),
            dns(out@) == picks(c.take(i as int), lo, e),
            lo == (if b >= s {
                b
            } else {
                s
            }),
            b == base.dn(),
            s == start.dn(),
            e == end.dn(),
            end.wf(),
            start.wf(),
            base.wf(),
        decreases 7300 - i,
    {
        proof {
            lemma_picks_step(c, i as int, lo, e);
        }
        if end.is_before(&d) {
            proof {
                assert forall|j: int| i <= j < c.len() implies (#[trigger] c[j] is None
                    || c[j]->0 > e) by {}
                lemma_picks_tail(c, i as int, lo, e);
            }
            return out;
        }
        let wd = d.weekday_from_monday();
        if !d.is_before(&base) && !d.is_before(&start) && contains_u8(&days, wd as u8) {
            proof {
                lemma_dns_push(out@, d);
            }
            out.push(d);
        }
        match d.succ_opt() {
            Some(next) => {
                d = next;
            },
            None => {
                proof {
                    crate::date::lemma_dn_range(end);
                    assert forall|j: int| i + 1 <= j < c.len() implies (
                    #[trigger] c[j] is None || c[j]->0 > e) by {}
                    lemma_picks_tail(c, i + 1, lo, e);
                }
                return out;
            },
        }
        i = i + 1;
    }
    proof {
        lemma_picks_full(c, lo, e);
    }
    out
}

fn expand_monthly(base: Date, start: Date, end: Date) -> (out: Vec<Date>)
    requires
        base.wf(),
        start.wf(),
        end.wf(),
    ensures
        all_wf(out@),
        dns(out@) == picks(candidates(RuleModel::Monthly, base, start.dn()), start.dn(), end.dn()),
{
    let ghost b = base.dn();
    let ghost s = start.dn();
    let ghost e = end.dn();
    let ghost r = RuleModel::Monthly;
    let ghost c = candidates(r, base, s);
    let mut out: Vec<Date> = Vec::new();
    let mut i: usize = 0;
    while i < 1000
        invariant
            r == RuleModel::Monthly,
            r is Monthly,
            c == candidates(r, base, s),
            i <= 1000,
            all_wf(out@),
            dns(out@) == picks(c.take(i as int), s, e),
            b == base.dn(),
            s == start.dn(),
            e == end.dn(),
            end.wf(),
            start.wf(),
            base.wf(),
        decreases 1000 - i,
    {
        proof {
            lemma_picks_step(c, i as int, s, e);
        }
        match add_months(&base, i as i32) {
            Some(d) => {
                if end.is_before(&d) {
                    proof {
                        assert forall|j: int| i <= j < c.len() implies (
                        #[trigger] c[j] is None || c[j]->0 > e) by {
                            if j > i && c[j] is Some {
                                lemma_month_shift_mono(base, i as int, j);
                            }
                        }
                        lemma_picks_tail(c, i as int, s, e);
                    }
                    return out;
                }
                if !d.is_before(&start) {
                    proof {
                        lemma_dns_push(out@, d);
                    }
                    out.push(d);
                }
            },
            None => {},
        }
        i = i + 1;
    }
    proof {
        lemma_picks_full(c, s, e);
    }
    out
}

/// Once the n-th weekday of month `j` is past the end, no later candidate is in range.
proof fn lemma_nth_tail_from_candidate(base: Date, nth: u8, w: u8, s: int, j: int, lo: int, e: int)
    requires
        base.wf(),
        0 <= j < 240,
        candidates(RuleModel::MonthlyNth(nth, w), base, s)[j] is Some,
        candidates(RuleModel::MonthlyNth(nth, w), base, s)[j]->0 > e,
    ensures
        picks(candidates(RuleModel::MonthlyNth(nth, w), base, s), lo, e) == picks(
            candidates(RuleModel::MonthlyNth(nth, w), base, s).take(j),
            lo,
            e,
        ),
{
    let c = candidates(RuleModel::MonthlyNth(nth, w), base, s);
    let t = base.year * 12 + base.month - 1 + j;
    let dj = nth_day(t / 12, t % 12 + 1, nth as int, w as int);
    assert forall|k: int| j <= k < c.len() implies (#[trigger] c[k] is None || c[k]->0 > e) by {
        if k > j && c[k] is Some {
            let tk = base.year * 12 + base.month - 1 + k;
            lemma_nth_after(t, tk, dj, nth as int, w as int);
        }
    }
    lemma_picks_tail(c, j, lo, e);
}

/// Once the first day of month `j + 1` is past the end (or past the last date), no
/// candidate from month `j + 1` on is in range.
proof fn lemma_nth_tail_from_month(base: Date, nth: u8, w: u8, s: int, j: int, lo: int, e: int)
    requires
        base.wf(),
        0 <= j < 240,
        ({
            let t1 = base.year * 12 + base.month - 1 + j + 1;
            !valid_ymd(t1 / 12, t1 % 12 + 1, 1) || ymd_number(t1 / 12, t1 % 12 + 1, 1) > e
        }),
    ensures
        picks(candidates(RuleModel::MonthlyNth(nth, w), base, s), lo, e) == picks(
            candidates(RuleModel::MonthlyNth(nth, w), base, s).take(j + 1),
            lo,
            e,
        ),
{
    let c = candidates(RuleModel::MonthlyNth(nth, w), base, s);
    let t1 = base.year * 12 + base.month - 1 + j + 1;
    assert forall|k: int| j + 1 <= k < c.len() implies (#[trigger] c[k] is None || c[k]->0
        > e) by {
        let tk = base.year * 12 + base.month - 1 + k;
        if c[k] is Some {
            assert(tk / 12 >= t1 / 12);
            assert(valid_ymd(tk / 12, tk % 12 + 1, 1));
            assert(valid_ymd(t1 / 12, t1 % 12 + 1, 1));
            if k > j + 1 {
                lemma_nth_after(t1, tk, 1, nth as int, w as int);
            }
        }
    }
    lemma_picks_tail(c, j + 1, lo, e);
}

#[verifier::rlimit(100)]
#[verifier::spinoff_prover]
fn expand_monthly_nth(base: Date, nth: u8, weekday: u8, start: Date, end: Date) -> (out: Vec<Date>)
    requires
        base.wf(),
        start.wf(),
        end.wf(),
        expansion_in_range(RuleModel::MonthlyNth(nth, weekday), base, start, end),
    ensures
        all_wf(out@),
        dns(out@) == picks(candidates(RuleModel::MonthlyNth(nth, weekday), base, start.dn()), (if base.dn() >= start.dn() { base.dn() } else { start.dn() }), end.dn()),
{
    let ghost b = base.dn();
    let ghost s = start.dn();
    let ghost e = end.dn();
    let ghost r = RuleModel::MonthlyNth(nth, weekday);
    let ghost c = candidates(r, base, s);
    let mut out: Vec<Date> = Vec::new();
    let ghost lo: int = if b >= s {
        b
    } else {
        s
    };
    let mut year: i32 = base.year;
    let mut month: u32 = base.month;
    let mut j: usize = 0;
    while j < 240
        invariant
            r == RuleModel::MonthlyNth(nth, weekday),
            c == candidates(r, base, s),
            j <= 240,
            1 <= month <= 12,
            year * 12 + month - 1 == base.year * 12 + base.month - 1 + j,
            j > 0 ==> year <= MAX_YEAR && ymd_number(year as int, month as int, 1) <= e,
            all_wf(out@),
            dns(out@) == picks(c.take(j as int), lo, e),
            lo == (if b >= s {
                b
            } else {
                s
            }),
            b == base.dn(),
            s == start.dn(),
            e == end.dn(),
            end.wf(),
            start.wf(),
            base.wf(),
            expansion_in_range(r, base, start, end),
        decreases 240 - j,
    {
        let ghost t = base.year * 12 + base.month - 1 + j;
        proof {
            lemma_picks_step(c, j as int, lo, e);
            assert(t / 12 == year && t % 12 + 1 == month);
        }
        match nth_weekday_of_month(year, month, nth, weekday) {
            Some(d) => {
                if end.is_before(&d) {
                    proof {
                        lemma_nth_tail_from_candidate(base, nth, weekday, s, j as int, lo, e);
                    }
                    return out;
                }
                if !d.is_before(&base) && !d.is_before(&start) {
                    proof {
                        lemma_dns_push(out@, d);
                    }
                    out.push(d);
                }
            },
            None => {},
        }
        if month == 12 {
            month = 1;
            year = year + 1;
        } else {
            month = month + 1;
        }
        let ghost t1 = t + 1;
        match Date::from_ymd_opt(year, month, 1) {
            None => {
                proof {
                    assert(t1 / 12 == year && t1 % 12 + 1 == month);
                    lemma_nth_tail_from_month(base, nth, weekday, s, j as int, lo, e);
                }
                return out;
            },
            Some(f) => {
                if end.is_before(&f) {
                    proof {
                        assert(t1 / 12 == year && t1 % 12 + 1 == month);
                        lemma_nth_tail_from_month(base, nth, weekday, s, j as int, lo, e);
                    }
                    return out;
                }
            },
        }
        j = j + 1;
    }
    proof {
        lemma_picks_full(c, lo, e);
    }
    out
}

fn expand_yearly(base: Date, start: Date, end: Date) -> (out: Vec<Date>)
    requires
        base.wf(),
        start.wf(),
        end.wf(),
    ensures
        all_wf(out@),
        dns(out@) == picks(candidates(RuleModel::Yearly, base, start.dn()), start.dn(), end.dn()),
{
    let ghost b = base.dn();
    let ghost s = start.dn();
    let ghost e = end.dn();
    let ghost r = RuleModel::Yearly;
    let ghost c = candidates(r, base, s);
    let mut out: Vec<Date> = Vec::new();
    let mut i: usize = 0;
    while i < 1000
        invariant
            r == RuleModel::Yearly,
            r is Yearly,
            c == candidates(r, base, s),
            i <= 1000,
            all_wf(out@),
            dns(out@) == picks(c.take(i as int), s, e),
            b == base.dn(),
            s == start.dn(),
            e == end.dn(),
            end.wf(),
            start.wf(),
            base.wf(),
        decreases 1000 - i,
    {
        proof {
            lemma_picks_step(c, i as int, s, e);
        }
        match add_years(&base, i as i32) {
            Some(d) => {
                if end.is_before(&d) {
                    proof {
                        assert forall|j: int| i <= j < c.len() implies (
                        #[trigger] c[j] is None || c[j]->0 > e) by {
                            if j > i && c[j] is Some {
                                lemma_year_shift_mono(base, i as int, j);
                            }
                        }
                        lemma_picks_tail(c, i as int, s, e);
                    }
                    return out;
                }
                if !d.is_before(&start) {
                    proof {
                        lemma_dns_push(out@, d);
                    }
                    out.push(d);
                }
            },
            None => {},
        }
        i = i + 1;
    }
    proof {
        lemma_picks_full(c, s, e);
    }
    out
}

fn occurrences_exact(base: Date, rule: RepeatRule, start: Date, end: Date) -> (out: Vec<
    Date,
>)
    requires
        base.wf(),
        start.wf(),
        end.wf(),
        expansion_in_range(rule@, base, start, end),
    ensures
        all_wf(out@),
        dns(out@) == occurrence_days(rule@, base, start, end),
{
    let early = match &rule {
        RepeatRule::WeeklyOn(_) => false,
        RepeatRule::MonthlyNth(_, _) => false,
        _ => true,
    };
    if early && end.is_before(&base) {
        let out: Vec<Date> = Vec::new();
        assert(dns(out@) =~= Seq::<int>::empty());
        return out;
    }
    let ghost r = rule@;
    let ghost lo_any = if base.dn() >= start.dn() {
        base.dn()
    } else {
        start.dn()
    };
    proof {
        assert(!early ==> (r is WeeklyOn || r is MonthlyNth));
        assert(early ==> end.dn() >= base.dn());
    }
    let out = match rule {
        RepeatRule::NoRepeat => expand_once(base, start, end),
        RepeatRule::Daily => expand_daily(base, start, end),
        RepeatRule::Weekly => expand_weekly(base, start, end),
        RepeatRule::WeeklyOn(days) => {
            let out = expand_weekly_on(base, days, start, end);
            proof {
                if end.dn() < base.dn() {
                    lemma_picks_none_in(candidates(r, base, start.dn()), lo_any, end.dn());
                }
            }
            out
        },
        RepeatRule::Monthly => expand_monthly(base, start, end),
        RepeatRule::MonthlyNth(nth, weekday) => {
            let out = expand_monthly_nth(base, nth, weekday, start, end);
            proof {
                if end.dn() < base.dn() {
                    lemma_picks_none_in(candidates(r, base, start.dn()), lo_any, end.dn());
                }
            }
            out
        },
        RepeatRule::Yearly => expand_yearly(base, start, end),
    };
    out
}


/// The dates within `[start, end]` on which an event first occurring on `base` with
/// repeat rule `rule` occurs, in calendar order.
pub fn occurrences_in_range(base: Date, rule: RepeatRule, start: Date, end: Date) -> (out: Vec<
    Date,
>)
    requires
        base.wf(),
        start.wf(),
        end.wf(),
        expansion_in_range(rule@, base, start, end),
    ensures
        all_wf(out@),
        dns(out@) == occurrence_days(rule@, base, start, end),
        forall|k: int| 0 <= k < out@.len() ==> start.dn() <= (#[trigger] out@[k]).dn() <= end.dn(),
        forall|i: int, j: int| 0 <= i < j < out@.len() ==> out@[i].dn() < out@[j].dn(),
{
    let ghost r = rule@;
    let out = occurrences_exact(base, rule, start, end);
    proof {
        lemma_occurrence_days_facts(r, base, start, end);
        assert forall|k: int| 0 <= k < out@.len() implies start.dn() <= (#[trigger] out@[k]).dn()
            <= end.dn() by {
            assert(dns(out@)[k] == out@[k].dn());
        }
        assert forall|i: int, j: int| 0 <= i < j < out@.len() implies out@[i].dn()
            < out@[j].dn() by {
            assert(dns(out@)[i] == out@[i].dn());
            assert(dns(out@)[j] == out@[j].dn());
        }
    }
    out
}
/// Whether expanding `rule` from `base` over `[start, end]` stays within the supported
/// dates (see `expansion_in_range`), so that `occurrences_in_range` may be called.
pub fn expansion_fits(rule: &RepeatRule, base: &Date, start: &Date, end: &Date) -> (b: bool)
    requires
        base.wf(),
        start.wf(),
        end.wf(),
    ensures
        b == expansion_in_range(rule@, *base, *start, *end),
{
    match rule {
        RepeatRule::Weekly => {
            let bn = base.day_number();
            let en = end.day_number();
            if en < bn {
                return true;
            }
            let last = match Date::from_ymd_opt(MAX_YEAR, 12, 31) {
                Some(d) => d,
                None => return false,
            };
            let q: i64 = (en - bn) / 7;
            let k: i64 = if q <= 999 {
                q
            } else {
                999
            };
            bn + 7 * k + 7 <= last.day_number()
        },
        RepeatRule::WeeklyOn(_) => {
            let first = match Date::from_ymd_opt(crate::date::MIN_YEAR, 1, 1) {
                Some(d) => d,
                None => return false,
            };
            start.day_number() - 7 >= first.day_number()
        },
        RepeatRule::MonthlyNth(n, w) => {
            let dec1 = match Date::from_ymd_opt(MAX_YEAR, 12, 1) {
                Some(d) => d,
                None => return false,
            };
            let j: i64 = MAX_YEAR as i64 * 12 + 11 - (base.year as i64 * 12 + base.month as i64 - 1);
            let wd: i64 = dec1.weekday_from_monday() as i64;
            let offset: i64 = (*w as i64 - wd + 7) % 7;
            proof {
                assert(dec1.weekday() == weekday_of(dec1.dn()));
                assert(offset == (*w as int - wd) % 7) by {
                    assert(0 <= *w as int - wd + 7);
                }
            }
            let nd: i64 = 1 + offset + (*n as i64 - 1) * 7;
            !(0 <= j && j < 240 && (j == 0 || dec1.day_number() <= end.day_number()) && nd > 31)
        },
        _ => true,
    }
}


/// A candidate that exists and falls in the range is picked.
proof fn lemma_picks_contains(c: Seq<Option<int>>, lo: int, hi: int, i: int, x: int)
    requires
        0 <= i < c.len(),
        c[i] == Some(x),
        lo <= x <= hi,
    ensures
        picks(c, lo, hi).contains(x),
    decreases c.len(),
{
    let d = c.drop_last();
    if i < c.len() - 1 {
        assert(d[i] == c[i]);
        lemma_picks_contains(d, lo, hi, i, x);
        let pd = picks(d, lo, hi);
        let k = choose|k: int| 0 <= k < pd.len() && pd[k] == x;
        let p = picks(c, lo, hi);
        assert(p[k] == x);
    } else {
        let p = picks(c, lo, hi);
        assert(p[p.len() - 1] == x);
    }
}

/// A picked day is a candidate that exists, within the range.
proof fn lemma_picks_member(c: Seq<Option<int>>, lo: int, hi: int, x: int)
    requires
        picks(c, lo, hi).contains(x),
    ensures
        lo <= x <= hi,
        exists|i: int| 0 <= i < c.len() && c[i] == Some(x),
{
    lemma_picks_bounds(c, lo, hi);
    lemma_picks_members(c, lo, hi);
    let p = picks(c, lo, hi);
    let k = choose|k: int| 0 <= k < p.len() && p[k] == x;
    assert(lo <= p[k] <= hi);
    assert(exists|i: int| 0 <= i < c.len() && #[trigger] c[i] == Some(p[k]));
}

/// The first occurrence of a series is the base date itself: when the base date lies in
/// the range, it is among the occurrences for a series that does not repeat, repeats
/// daily, weekly, monthly or yearly; for a weekday list when the base date falls on one of
/// the listed weekdays, and for the n-th weekday form when it is that weekday of its month.
pub proof fn lemma_base_occurs(r: RuleModel, b: Date, s: Date, e: Date)
    requires
        b.wf(),
        s.dn() <= b.dn() <= e.dn(),
        match r {
            RuleModel::WeeklyOn(days) => days.contains(b.weekday() as u8),
            RuleModel::MonthlyNth(n, w) => nth_weekday(b.year as int, b.month as int, n as int, w as int)
                == Some(b.dn()),
            _ => true,
        },
    ensures
        occurrence_days(r, b, s, e).contains(b.dn()),
{
    let c = candidates(r, b, s.dn());
    assert(candidate_count(r) >= 1);
    assert(c[0] == candidate(r, b, s.dn(), 0));
    match r {
        RuleModel::Monthly => {
            let t = b.year * 12 + b.month - 1;
            assert(t / 12 == b.year && t % 12 == b.month - 1) by (nonlinear_arith)
                requires
                    t == b.year * 12 + b.month - 1,
                    1 <= b.month <= 12,
            ;
        },
        RuleModel::MonthlyNth(n, w) => {
            let t = b.year * 12 + b.month - 1;
            assert(t / 12 == b.year && t % 12 == b.month - 1) by (nonlinear_arith)
                requires
                    t == b.year * 12 + b.month - 1,
                    1 <= b.month <= 12,
            ;
        },
        _ => {},
    }
    assert(c[0] == Some(b.dn()));
    lemma_picks_contains(c, occurrence_lo(r, b, s), e.dn(), 0, b.dn());
}

/// The lower end of the days picked for a rule (see `occurrence_days`).
pub open spec fn occurrence_lo(r: RuleModel, b: Date, s: Date) -> int {
    match r {
        RuleModel::WeeklyOn(_) => if b.dn() >= s.dn() {
            b.dn()
        } else {
            s.dn()
        },
        RuleModel::MonthlyNth(_, _) => if b.dn() >= s.dn() {
            b.dn()
        } else {
            s.dn()
        },
        _ => s.dn(),
    }
}

/// A yearly series falls on every date of the range with the base date's month and day,
/// from the base year on, for the 1000 years that are examined; and on no other date.
pub proof fn lemma_yearly_occurrences(b: Date, s: Date, e: Date, d: Date)
    requires
        b.wf(),
        d.wf(),
    ensures
        occurrence_days(RuleModel::Yearly, b, s, e).contains(d.dn()) <==> (s.dn() <= d.dn() <= e.dn()
            && d.month == b.month && d.day == b.day && b.year <= d.year < b.year + 1000),
{
    let r = RuleModel::Yearly;
    let c = candidates(r, b, s.dn());
    let same = d.month == b.month && d.day == b.day && b.year <= d.year < b.year + 1000;
    if occurrence_days(r, b, s, e).contains(d.dn()) {
        assert(e.dn() >= b.dn());
        lemma_picks_member(c, s.dn(), e.dn(), d.dn());
        let i = choose|i: int| 0 <= i < c.len() && c[i] == Some(d.dn());
        assert(c[i] == year_shift(b, i));
        let shifted_year = i + b.year;
        assert(valid_ymd(shifted_year, b.month as int, b.day as int));
        let f = Date { year: shifted_year as i32, month: b.month, day: b.day };
        assert(f.wf() && f.dn() == d.dn());
        crate::date::lemma_dn_injective(d, f);
    }
    if s.dn() <= d.dn() <= e.dn() && same {
        let i = d.year - b.year;
        if b.year < d.year {
            crate::date::lemma_dn_lex(b, d);
        }
        assert(b.dn() <= d.dn());
        assert(c[i] == year_shift(b, i));
        assert(c[i] == Some(d.dn()));
        lemma_picks_contains(c, s.dn(), e.dn(), i, d.dn());
    }
}

/// A daily series falls on every day of the range from the base date on, for the 1000
/// days that are examined, and on no other day.
pub proof fn lemma_daily_occurrences(b: Date, s: Date, e: Date, x: int)
    requires
        b.wf(),
    ensures
        occurrence_days(RuleModel::Daily, b, s, e).contains(x) <==> (s.dn() <= x <= e.dn() && b.dn() <= x
            < b.dn() + 1000),
{
    let r = RuleModel::Daily;
    let c = candidates(r, b, s.dn());
    if occurrence_days(r, b, s, e).contains(x) {
        lemma_picks_member(c, s.dn(), e.dn(), x);
        let i = choose|i: int| 0 <= i < c.len() && c[i] == Some(x);
        assert(c[i] == candidate(r, b, s.dn(), i));
    }
    if s.dn() <= x <= e.dn() && b.dn() <= x < b.dn() + 1000 {
        let i = x - b.dn();
        assert(c[i] == candidate(r, b, s.dn(), i));
        lemma_picks_contains(c, s.dn(), e.dn(), i, x);
    }
}

/// A weekly series falls on every day of the range that is a whole number of weeks after
/// the base date, for the 1000 weeks that are examined, and on no other day.
pub proof fn lemma_weekly_occurrences(b: Date, s: Date, e: Date, x: int)
    requires
        b.wf(),
    ensures
        occurrence_days(RuleModel::Weekly, b, s, e).contains(x) <==> (s.dn() <= x <= e.dn() && b.dn() <= x
            && (x - b.dn()) % 7 == 0 && (x - b.dn()) / 7 < 1000),
{
    let r = RuleModel::Weekly;
    let c = candidates(r, b, s.dn());
    if occurrence_days(r, b, s, e).contains(x) {
        lemma_picks_member(c, s.dn(), e.dn(), x);
        let i = choose|i: int| 0 <= i < c.len() && c[i] == Some(x);
        assert(c[i] == candidate(r, b, s.dn(), i));
        assert(x - b.dn() == 7 * i);
        assert((7 * i) % 7 == 0 && (7 * i) / 7 == i) by (nonlinear_arith);
    }
    if s.dn() <= x <= e.dn() && b.dn() <= x && (x - b.dn()) % 7 == 0 && (x - b.dn()) / 7 < 1000 {
        let i = (x - b.dn()) / 7;
        assert(x - b.dn() == 7 * i) by (nonlinear_arith)
            requires
                (x - b.dn()) % 7 == 0,
                i == (x - b.dn()) / 7,
        ;
        assert(c[i] == candidate(r, b, s.dn(), i));
        lemma_picks_contains(c, s.dn(), e.dn(), i, x);
    }
}

/// A monthly series falls on every date of the range with the base date's day of the month,
/// from the base month on, for the 1000 months that are examined (months without that day
/// are skipped), and on no other date.
pub proof fn lemma_monthly_occurrences(b: Date, s: Date, e: Date, d: Date)
    requires
        b.wf(),
        d.wf(),
    ensures
        occurrence_days(RuleModel::Monthly, b, s, e).contains(d.dn()) <==> (s.dn() <= d.dn() <= e.dn()
            && d.day == b.day && 0 <= (d.year * 12 + d.month) - (b.year * 12 + b.month) < 1000),
{
    let r = RuleModel::Monthly;
    let c = candidates(r, b, s.dn());
    if occurrence_days(r, b, s, e).contains(d.dn()) {
        assert(e.dn() >= b.dn());
        lemma_picks_member(c, s.dn(), e.dn(), d.dn());
        let i = choose|i: int| 0 <= i < c.len() && c[i] == Some(d.dn());
        assert(c[i] == month_shift(b, i));
        let t = b.year * 12 + b.month - 1 + i;
        let (ty, tm) = (t / 12, t % 12 + 1);
        assert(t == ty * 12 + tm - 1) by (nonlinear_arith)
            requires
                ty == t / 12,
                tm == t % 12 + 1,
        ;
        assert(valid_ymd(ty, tm, b.day as int));
        let f = Date { year: ty as i32, month: tm as u32, day: b.day };
        assert(f.wf() && f.dn() == d.dn());
        crate::date::lemma_dn_injective(d, f);
    }
    if s.dn() <= d.dn() <= e.dn() && d.day == b.day && 0 <= (d.year * 12 + d.month) - (b.year * 12 + b.month) < 1000 {
        let i = (d.year * 12 + d.month) - (b.year * 12 + b.month);
        let t = b.year * 12 + b.month - 1 + i;
        assert(t == d.year * 12 + d.month - 1);
        assert(t / 12 == d.year && t % 12 == d.month - 1) by (nonlinear_arith)
            requires
                t == d.year * 12 + d.month - 1,
                1 <= d.month <= 12,
        ;
        assert(c[i] == month_shift(b, i));
        assert(c[i] == Some(d.dn()));
        lemma_picks_contains(c, s.dn(), e.dn(), i, d.dn());
    }
}

} // verus!
