//! iCalendar (RFC 5545) import and export, kept to the subset that calendar programs
//! commonly exchange.
//!
//! - Export writes one `VEVENT` per event; a repeat rule becomes a standard `RRULE`, so the
//!   receiving program expands the series itself.
//! - Import reads `SUMMARY`, `DTSTART`, `DTEND`, `DURATION`, `RRULE` (`FREQ` with a simple
//!   `BYDAY`, and `UNTIL`), `STATUS`, `UID`, `DESCRIPTION`, `LOCATION` and `URL` of each
//!   `VEVENT`. A rule it cannot expand (`COUNT`, an `INTERVAL` other than 1) falls back to a
//!   single event rather than an endless series.

use crate::date::{
    chrono_parse_hm, compact_date_text, compact_datetime_valid, dashed_date, dashed_shape, field, hm_shape, hm_text, iso_date_text,
    parse_compact_datetime, parse_hm, parse_iso_date, utc_now, utc_to_local, year_text, Date,
    DateTime,
};
use crate::recurrence::{RepeatRule, RuleModel};
use crate::text::{
    all_digits, append_all, append_str, ascii_lower, chars_of, contains, decimal, decimal_u64,
    digits_value, ends_with, eq_str, is_digit, join, join_chars, replace, replace_str, split,
    split_chars, split_once, split_once_chars, starts_with, string_from_chars, to_ascii_lower,
    trim, trim_start, trim_start_chars, two_digits, trim_chars, views, parse_i64, parse_i64_spec, parse_u8,
    parse_u8_spec,
};
use vstd::prelude::*;

verus! {

// ------------------------------------------------------------------
// Weekday codes and RRULE text
// ------------------------------------------------------------------

/// The two-letter RFC 5545 code of a weekday (0 = Monday .. 6 = Sunday), taken modulo 7.
pub open spec fn weekday_code_text(w: int) -> Seq<char> {
    let k = w % 7;
    if k == 0 {
        "MO"@
    } else if k == 1 {
        "TU"@
    } else if k == 2 {
        "WE"@
    } else if k == 3 {
        "TH"@
    } else if k == 4 {
        "FR"@
    } else if k == 5 {
        "SA"@
    } else {
        "SU"@
    }
}

/// The weekday a two-letter code names, if any.
pub open spec fn code_weekday(code: Seq<char>) -> Option<u8> {
    if code == "MO"@ {
        Some(0u8)
    } else if code == "TU"@ {
        Some(1u8)
    } else if code == "WE"@ {
        Some(2u8)
    } else if code == "TH"@ {
        Some(3u8)
    } else if code == "FR"@ {
        Some(4u8)
    } else if code == "SA"@ {
        Some(5u8)
    } else if code == "SU"@ {
        Some(6u8)
    } else {
        None
    }
}

pub fn weekday_code(w: u8) -> (r: &'static str)
    ensures
        r@ == weekday_code_text(w as int),
{
    let k = w % 7;
    if k == 0 {
        "MO"
    } else if k == 1 {
        "TU"
    } else if k == 2 {
        "WE"
    } else if k == 3 {
        "TH"
    } else if k == 4 {
        "FR"
    } else if k == 5 {
        "SA"
    } else {
        "SU"
    }
}

fn code_weekday_chars(code: &Vec<char>) -> (r: Option<u8>)
    ensures
        r == code_weekday(code@),
{
    if eq_str(code, "MO") {
        Some(0)
    } else if eq_str(code, "TU") {
        Some(1)
    } else if eq_str(code, "WE") {
        Some(2)
    } else if eq_str(code, "TH") {
        Some(3)
    } else if eq_str(code, "FR") {
        Some(4)
    } else if eq_str(code, "SA") {
        Some(5)
    } else if eq_str(code, "SU") {
        Some(6)
    } else {
        None
    }
}

pub fn weekday_from_code(code: &str) -> (r: Option<u8>)
    ensures
        r == code_weekday(code@),
{
    let v = chars_of(code);
    code_weekday_chars(&v)
}

pub open spec fn weekday_codes(days: Seq<u8>) -> Seq<Seq<char>> {
    Seq::new(days.len(), |k: int| weekday_code_text(days[k] as int))
}

/// The `RRULE` value of a repeat rule; `None` for a rule that does not repeat.
pub open spec fn rrule_text(r: RuleModel) -> Option<Seq<char>> {
    match r {
        RuleModel::NoRepeat => None,
        RuleModel::Daily => Some("FREQ=DAILY"@),
        RuleModel::Weekly => Some("FREQ=WEEKLY"@),
        RuleModel::WeeklyOn(days) => Some("FREQ=WEEKLY;BYDAY="@ + join(weekday_codes(days), ","@)),
        RuleModel::Monthly => Some("FREQ=MONTHLY"@),
        RuleModel::MonthlyNth(n, w) => Some(
            "FREQ=MONTHLY;BYDAY="@ + decimal(n as nat) + weekday_code_text(w as int),
        ),
        RuleModel::Yearly => Some("FREQ=YEARLY"@),
    }
}

fn rrule_chars(rule: &RepeatRule) -> (r: Option<Vec<char>>)
    ensures
        r is Some <==> rrule_text(rule@) is Some,
        r matches Some(v) ==> rrule_text(rule@) == Some(v@),
{
    match rule {
        RepeatRule::NoRepeat => None,
        RepeatRule::Daily => Some(chars_of("FREQ=DAILY")),
        RepeatRule::Weekly => Some(chars_of("FREQ=WEEKLY")),
        RepeatRule::WeeklyOn(days) => {
            let mut pieces: Vec<Vec<char>> = Vec::new();
            let mut i: usize = 0;
            while i < days.len()
                invariant
                    i <= days.len(),
                    views(pieces@) == weekday_codes(days@).take(i as int),
                decreases days.len() - i,
            {
                let c = chars_of(weekday_code(days[i]));
                let ghost before = views(pieces@);
                pieces.push(c);
                assert(views(pieces@) =~= before.push(c@));
                assert(weekday_codes(days@).take(i + 1) =~= weekday_codes(days@).take(
                    i as int,
                ).push(c@));
                i = i + 1;
            }
            assert(weekday_codes(days@).take(days.len() as int) =~= weekday_codes(days@));
            let sep = chars_of(",");
            let joined = join_chars(&pieces, &sep);
            let mut out = chars_of("FREQ=WEEKLY;BYDAY=");
            append_all(&mut out, &joined);
            Some(out)
        },
        RepeatRule::Monthly => Some(chars_of("FREQ=MONTHLY")),
        RepeatRule::MonthlyNth(n, w) => {
            let mut out = chars_of("FREQ=MONTHLY;BYDAY=");
            let nd = decimal_u64(*n as u64);
            append_all(&mut out, &nd);
            append_str(&mut out, weekday_code(*w));
            Some(out)
        },
        RepeatRule::Yearly => Some(chars_of("FREQ=YEARLY")),
    }
}

/// The `RRULE` value (without the `RRULE:` prefix) of a repeat rule; `None` when the event
/// does not repeat and no `RRULE` line is written.
pub fn repeat_rule_to_rrule(rule: &RepeatRule) -> (r: Option<String>)
    ensures
        r is Some <==> rrule_text(rule@) is Some,
        r matches Some(s) ==> rrule_text(rule@) == Some(s@),
{
    match rrule_chars(rule) {
        Some(v) => Some(string_from_chars(&v)),
        None => None,
    }
}

// ------------------------------------------------------------------
// Text values
// ------------------------------------------------------------------

/// RFC 5545 escaping of a text value: backslash, comma, semicolon and newline.
pub open spec fn escape_spec(s: Seq<char>) -> Seq<char> {
    replace(
        replace(replace(replace(s, "\\"@, "\\\\"@), ","@, "\\,"@), ";"@, "\\;"@),
        "\n"@,
        "\\n"@,
    )
}

/// The reverse replacements, applied in the order the import uses.
pub open spec fn unescape_spec(s: Seq<char>) -> Seq<char> {
    replace(
        replace(replace(replace(s, "\\n"@, "\n"@), "\\;"@, ";"@), "\\,"@, ","@),
        "\\\\"@,
        "\\"@,
    )
}

fn escape_chars(s: &Vec<char>) -> (r: Vec<char>)
    ensures
        r@ == escape_spec(s@),
{
    proof {
        reveal_strlit("\\");
        reveal_strlit(",");
        reveal_strlit(";");
        reveal_strlit("\n");
    }
    let a = replace_str(s, "\\", "\\\\");
    let b = replace_str(&a, ",", "\\,");
    let c = replace_str(&b, ";", "\\;");
    replace_str(&c, "\n", "\\n")
}

fn unescape_chars(s: &Vec<char>) -> (r: Vec<char>)
    ensures
        r@ == unescape_spec(s@),
{
    proof {
        reveal_strlit("\\n");
        reveal_strlit("\\;");
        reveal_strlit("\\,");
        reveal_strlit("\\\\");
    }
    let a = replace_str(s, "\\n", "\n");
    let b = replace_str(&a, "\\;", ";");
    let c = replace_str(&b, "\\,", ",");
    replace_str(&c, "\\\\", "\\")
}

pub fn escape_text(s: &str) -> (r: String)
    ensures
        r@ == escape_spec(s@),
{
    let v = chars_of(s);
    let e = escape_chars(&v);
    string_from_chars(&e)
}

pub fn unescape_text(s: &str) -> (r: String)
    ensures
        r@ == unescape_spec(s@),
{
    let v = chars_of(s);
    let e = unescape_chars(&v);
    string_from_chars(&e)
}

/// The text with each ASCII capital letter in lower case (`to_ascii_lowercase`).
pub open spec fn lower_ascii(s: Seq<char>) -> Seq<char> {
    Seq::new(s.len(), |i: int| ascii_lower(s[i]))
}

pub fn lower_ascii_chars(s: &Vec<char>) -> (r: Vec<char>)
    ensures
        r@ == lower_ascii(s@),
{
    let mut out: Vec<char> = Vec::new();
    let mut i: usize = 0;
    while i < s.len()
        invariant
            i <= s.len(),
            out@ == lower_ascii(s@).take(i as int),
        decreases s.len() - i,
    {
        out.push(to_ascii_lower(s[i]));
        assert(lower_ascii(s@).take(i + 1) =~= lower_ascii(s@).take(i as int).push(
            ascii_lower(s@[i as int]),
        ));
        i = i + 1;
    }
    assert(lower_ascii(s@).take(s.len() as int) =~= lower_ascii(s@));
    out
}

/// A title that Outlook writes for a cancelled meeting: after leading whitespace it begins
/// with `已取消:` or `已取消：`, or, in any ASCII case, with `canceled:` or `cancelled:`.
pub open spec fn marks_cancelled(title: Seq<char>) -> bool {
    let t = trim_start(title);
    let lower = lower_ascii(t);
    ||| starts_with(t, "已取消:"@)
    ||| starts_with(t, "已取消："@)
    ||| starts_with(lower, "canceled:"@)
    ||| starts_with(lower, "cancelled:"@)
}

fn marks_cancelled_chars(title: &Vec<char>) -> (b: bool)
    ensures
        b == marks_cancelled(title@),
{
    let t = trim_start_chars(title);
    let lower = lower_ascii_chars(&t);
    crate::text::starts_with_str(&t, "已取消:") || crate::text::starts_with_str(&t, "已取消：")
        || crate::text::starts_with_str(&lower, "canceled:") || crate::text::starts_with_str(
        &lower,
        "cancelled:",
    )
}

pub fn title_marks_cancelled(title: &str) -> (b: bool)
    ensures
        b == marks_cancelled(title@),
{
    let v = chars_of(title);
    marks_cancelled_chars(&v)
}

// ------------------------------------------------------------------
// Line unfolding
// ------------------------------------------------------------------

/// The text without its trailing carriage returns (`trim_end_matches('\r')`).
pub open spec fn trim_cr(s: Seq<char>) -> Seq<char>
    decreases s.len(),
{
    if s.len() > 0 && s.last() == '\r' {
        trim_cr(s.drop_last())
    } else {
        s
    }
}

/// A continuation line begins with a space or a tab.
pub open spec fn is_continuation(line: Seq<char>) -> bool {
    line.len() > 0 && (line[0] == ' ' || line[0] == '\t')
}

/// Unfolding of the `\n`-separated pieces: each piece loses its trailing carriage returns; a
/// continuation piece is appended to the text so far without its first character, any other
/// piece starts a new line.
pub open spec fn unfold_pieces(pieces: Seq<Seq<char>>) -> Seq<char>
    decreases pieces.len(),
{
    if pieces.len() == 0 {
        seq![]
    } else {
        let out = unfold_pieces(pieces.drop_last());
        let line = trim_cr(pieces.last());
        if is_continuation(line) && out.len() > 0 {
            out + line.drop_first()
        } else if out.len() > 0 {
            out.push('\n') + line
        } else {
            line
        }
    }
}

/// RFC 5545 unfolding of a whole text.
pub open spec fn unfold_spec(content: Seq<char>) -> Seq<char> {
    unfold_pieces(split(content, '\n'))
}

fn trim_cr_chars(s: &Vec<char>) -> (r: Vec<char>)
    ensures
        r@ == trim_cr(s@),
{
    let mut n: usize = s.len();
    assert(s@.take(n as int) =~= s@);
    while n > 0 && s[n - 1] == '\r'
        invariant
            n <= s.len(),
            trim_cr(s@.take(n as int)) == trim_cr(s@),
        decreases n,
    {
        assert(s@.take(n as int).drop_last() =~= s@.take(n - 1));
        n = n - 1;
    }
    assert(s@.take(n as int) =~= s@.subrange(0, n as int));
    crate::text::slice_chars(s, 0, n)
}

fn unfold_chars(content: &Vec<char>) -> (r: Vec<char>)
    ensures
        r@ == unfold_spec(content@),
{
    let pieces = split_chars(content, '\n');
    let mut out: Vec<char> = Vec::new();
    let mut i: usize = 0;
    while i < pieces.len()
        invariant
            i <= pieces.len(),
            out@ == unfold_pieces(views(pieces@).take(i as int)),
        decreases pieces.len() - i,
    {
        let line = trim_cr_chars(&pieces[i]);
        proof {
            let t = views(pieces@).take(i + 1);
            assert(t.drop_last() =~= views(pieces@).take(i as int));
            assert(t.last() == pieces@[i as int]@);
        }
        if line.len() > 0 && (line[0] == ' ' || line[0] == '\t') && out.len() > 0 {
            let rest = crate::text::slice_chars(&line, 1, line.len());
            assert(rest@ =~= line@.drop_first());
            append_all(&mut out, &rest);
        } else {
            if out.len() > 0 {
                out.push('\n');
            }
            append_all(&mut out, &line);
        }
        i = i + 1;
    }
    assert(views(pieces@).take(pieces.len() as int) =~= views(pieces@));
    out
}

/// Undoes RFC 5545 line folding: a line that begins with a space or a tab continues the
/// previous one.
pub fn unfold_lines(content: &str) -> (r: String)
    ensures
        r@ == unfold_spec(content@),
{
    let v = chars_of(content);
    let u = unfold_chars(&v);
    string_from_chars(&u)
}

// ------------------------------------------------------------------
// Digits, dates and times in iCalendar values
// ------------------------------------------------------------------

/// The ASCII digits of a text, in order.
pub open spec fn ascii_digits(s: Seq<char>) -> Seq<char>
    decreases s.len(),
{
    if s.len() == 0 {
        seq![]
    } else {
        let r = ascii_digits(s.drop_last());
        if is_digit(s.last()) {
            r.push(s.last())
        } else {
            r
        }
    }
}

pub proof fn lemma_ascii_digits(s: Seq<char>)
    ensures
        all_digits(ascii_digits(s)),
        ascii_digits(s).len() <= s.len(),
    decreases s.len(),
{
    if s.len() > 0 {
        lemma_ascii_digits(s.drop_last());
    }
}

fn ascii_digits_chars(s: &Vec<char>) -> (r: Vec<char>)
    ensures
        r@ == ascii_digits(s@),
{
    let mut out: Vec<char> = Vec::new();
    let mut i: usize = 0;
    while i < s.len()
        invariant
            i <= s.len(),
            out@ == ascii_digits(s@.take(i as int)),
        decreases s.len() - i,
    {
        assert(s@.take(i + 1).drop_last() =~= s@.take(i as int));
        if '0' <= s[i] && s[i] <= '9' {
            out.push(s[i]);
        }
        i = i + 1;
    }
    assert(s@.take(s.len() as int) =~= s@);
    out
}

/// The date written by eight digits `YYYYMMDD`, when it exists.
pub open spec fn compact_date(d: Seq<char>) -> Option<Date> {
    if valid_ymd_fields(d) {
        Some(
            Date {
                year: field(d, 0, 4) as i32,
                month: field(d, 4, 6) as u32,
                day: field(d, 6, 8) as u32,
            },
        )
    } else {
        None
    }
}

pub open spec fn valid_ymd_fields(d: Seq<char>) -> bool {
    crate::date::valid_ymd(field(d, 0, 4), field(d, 4, 6), field(d, 6, 8))
}

/// Reads eight digits `YYYYMMDD` as a date. chrono does the reading: the digits are handed to
/// `NaiveDate::parse_from_str` as `YYYY-MM-DD`, which reads exactly as `%Y%m%d` does on the
/// eight digits.
fn compact_date_exec(d: &Vec<char>) -> (r: Option<Date>)
    requires
        d@.len() == 8,
        all_digits(d@),
    ensures
        r == compact_date(d@),
{
    let mut t: Vec<char> = Vec::new();
    t.push(d[0]);
    t.push(d[1]);
    t.push(d[2]);
    t.push(d[3]);
    t.push('-');
    t.push(d[4]);
    t.push(d[5]);
    t.push('-');
    t.push(d[6]);
    t.push(d[7]);
    proof {
        assert(t@.subrange(0, 4) =~= d@.subrange(0, 4));
        assert(t@.subrange(5, 7) =~= d@.subrange(4, 6));
        assert(t@.subrange(8, 10) =~= d@.subrange(6, 8));
        assert(dashed_shape(t@));
    }
    let text = string_from_chars(&t);
    parse_iso_date(text.as_str())
}

/// The `UNTIL` value of a rule as a date, given `local`, the local date that the machine's
/// time zone gives to a UTC value: a value of at least fourteen digits that ends in `Z` is a
/// UTC date-time and yields `local` when its first fourteen digits are valid; otherwise the
/// first eight digits are read as a date.
pub open spec fn until_spec(v: Seq<char>, local: Date) -> Option<Date> {
    let dg = ascii_digits(v);
    if dg.len() >= 14 && ends_with(v, "Z"@) {
        if compact_datetime_valid(dg.subrange(0, 14)) {
            Some(local)
        } else {
            None
        }
    } else if dg.len() >= 8 {
        compact_date(dg.subrange(0, 8))
    } else {
        None
    }
}

fn until_chars(v: &Vec<char>) -> (r: Option<Date>)
    ensures
        exists|local: Date| #![trigger until_spec(v@, local)] local.wf() && r == until_spec(v@, local),
{
    let dg = ascii_digits_chars(v);
    proof {
        lemma_ascii_digits(v@);
        reveal_strlit("Z");
    }
    let witness = Date { year: 2000, month: 1, day: 1 };
    assert(witness.wf());
    if dg.len() >= 14 && crate::text::ends_with_str(v, "Z") {
        let d14 = crate::text::slice_chars(&dg, 0, 14);
        assert(all_digits(d14@));
        let text = string_from_chars(&d14);
        match parse_compact_datetime(text.as_str()) {
            Some(utc) => {
                assert(compact_datetime_valid(d14@));
                proof {
                    crate::text::lemma_four_digits(d14@.subrange(0, 4));
                }
                let local = utc_to_local(utc);
                assert(until_spec(v@, local.date) == Some(local.date));
                Some(local.date)
            },
            None => {
                assert(until_spec(v@, witness) == None::<Date>);
                None
            },
        }
    } else if dg.len() >= 8 {
        let d8 = crate::text::slice_chars(&dg, 0, 8);
        assert(all_digits(d8@));
        let r = compact_date_exec(&d8);
        assert(until_spec(v@, witness) == r);
        r
    } else {
        assert(until_spec(v@, witness) == None::<Date>);
        None
    }
}

/// Reads the `UNTIL` value of a rule. A UTC value (fourteen digits or more, ending in `Z`)
/// is moved into the machine's time zone, which is why the contract speaks of some valid
/// local date.
pub fn parse_rrule_until(value: &str) -> (r: Option<Date>)
    ensures
        exists|local: Date| #![trigger until_spec(value@, local)] local.wf() && r == until_spec(
            value@,
            local,
        ),
{
    let v = chars_of(value);
    until_chars(&v)
}

// ------------------------------------------------------------------
// RRULE values
// ------------------------------------------------------------------

/// What the `KEY=VALUE` parts of an `RRULE` set; a later part overrides an earlier one.
pub struct RruleFields {
    pub freq: Option<Seq<char>>,
    pub byday: Option<Seq<char>>,
    pub until: Option<Seq<char>>,
    pub unsupported: bool,
}

pub open spec fn rrule_fields(parts: Seq<Seq<char>>) -> RruleFields
    decreases parts.len(),
{
    if parts.len() == 0 {
        RruleFields { freq: None, byday: None, until: None, unsupported: false }
    } else {
        let f = rrule_fields(parts.drop_last());
        match split_once(parts.last(), '=') {
            None => f,
            Some((k, v)) => if k == "FREQ"@ {
                RruleFields { freq: Some(v), ..f }
            } else if k == "BYDAY"@ {
                RruleFields { byday: Some(v), ..f }
            } else if k == "UNTIL"@ {
                RruleFields { until: Some(v), ..f }
            } else if k == "COUNT"@ || k == "BYMONTHDAY"@ {
                RruleFields { unsupported: true, ..f }
            } else if k == "INTERVAL"@ && v != "1"@ {
                RruleFields { unsupported: true, ..f }
            } else {
                f
            },
        }
    }
}

/// The weekdays named by a list of codes, skipping unknown codes.
pub open spec fn code_list(pieces: Seq<Seq<char>>) -> Seq<u8>
    decreases pieces.len(),
{
    if pieces.len() == 0 {
        seq![]
    } else {
        let r = code_list(pieces.drop_last());
        match code_weekday(pieces.last()) {
            Some(w) => r.push(w),
            None => r,
        }
    }
}

/// The index of the first character from `i` on that is neither a digit nor `-`.
pub open spec fn first_other_from(s: Seq<char>, i: int) -> int
    decreases s.len() - i,
{
    if i < 0 || i >= s.len() {
        s.len() as int
    } else if is_digit(s[i]) || s[i] == '-' {
        first_other_from(s, i + 1)
    } else {
        i
    }
}

/// A monthly `BYDAY` such as `3FR`: the n-th weekday of the month when n is in 1..=5 and
/// the code is known, otherwise a plain monthly rule.
pub open spec fn monthly_rule(spec: Seq<char>) -> RuleModel {
    let k0 = first_other_from(spec, 0);
    let k = if k0 < spec.len() {
        k0
    } else {
        0
    };
    match (parse_u8_spec(spec.subrange(0, k)), code_weekday(spec.subrange(k, spec.len() as int))) {
        (Some(n), Some(w)) => if 1 <= n <= 5 {
            RuleModel::MonthlyNth(n as u8, w)
        } else {
            RuleModel::Monthly
        },
        _ => RuleModel::Monthly,
    }
}

pub open spec fn rule_of_fields(f: RruleFields) -> RuleModel {
    match f.freq {
        Some(fr) => if fr == "DAILY"@ {
            RuleModel::Daily
        } else if fr == "WEEKLY"@ {
            match f.byday {
                Some(d) => {
                    let p = code_list(split(d, ','));
                    if p.len() == 0 {
                        RuleModel::Weekly
                    } else {
                        RuleModel::WeeklyOn(p)
                    }
                },
                None => RuleModel::Weekly,
            }
        } else if fr == "MONTHLY"@ {
            match f.byday {
                Some(s) => monthly_rule(s),
                None => RuleModel::Monthly,
            }
        } else if fr == "YEARLY"@ {
            RuleModel::Yearly
        } else {
            RuleModel::NoRepeat
        },
        None => RuleModel::NoRepeat,
    }
}

/// The rule and end date an `RRULE` value stands for, given the local date of a UTC
/// `UNTIL`. A `COUNT`, a `BYMONTHDAY` (days of the month the rules here cannot express),
/// or an `INTERVAL` other than 1, makes it a single event.
pub open spec fn rrule_spec(value: Seq<char>, local: Date) -> (RuleModel, Option<Date>) {
    let f = rrule_fields(split(value, ';'));
    if f.unsupported {
        (RuleModel::NoRepeat, None)
    } else {
        (
            rule_of_fields(f),
            match f.until {
                Some(u) => until_spec(u, local),
                None => None,
            },
        )
    }
}

pub open spec fn opt_view(o: Option<Vec<char>>) -> Option<Seq<char>> {
    match o {
        Some(v) => Some(v@),
        None => None,
    }
}

struct FieldsExec {
    freq: Option<Vec<char>>,
    byday: Option<Vec<char>>,
    until: Option<Vec<char>>,
    unsupported: bool,
}

fn rrule_fields_exec(parts: &Vec<Vec<char>>) -> (r: FieldsExec)
    ensures
        ({
            let f = rrule_fields(views(parts@));
            &&& opt_view(r.freq) == f.freq
            &&& opt_view(r.byday) == f.byday
            &&& opt_view(r.until) == f.until
            &&& r.unsupported == f.unsupported
        }),
{
    let mut out = FieldsExec { freq: None, byday: None, until: None, unsupported: false };
    let mut i: usize = 0;
    while i < parts.len()
        invariant
            i <= parts.len(),
            ({
                let f = rrule_fields(views(parts@).take(i as int));
                &&& opt_view(out.freq) == f.freq
                &&& opt_view(out.byday) == f.byday
                &&& opt_view(out.until) == f.until
                &&& out.unsupported == f.unsupported
            }),
        decreases parts.len() - i,
    {
        proof {
            let t = views(parts@).take(i + 1);
            assert(t.drop_last() =~= views(parts@).take(i as int));
            assert(t.last() == parts@[i as int]@);
        }
        match split_once_chars(&parts[i], '=') {
            None => {},
            Some((k, v)) => {
                if eq_str(&k, "FREQ") {
                    out.freq = Some(v);
                } else if eq_str(&k, "BYDAY") {
                    out.byday = Some(v);
                } else if eq_str(&k, "UNTIL") {
                    out.until = Some(v);
                } else if eq_str(&k, "COUNT") || eq_str(&k, "BYMONTHDAY") {
                    out.unsupported = true;
                } else if eq_str(&k, "INTERVAL") && !eq_str(&v, "1") {
                    out.unsupported = true;
                }
            },
        }
        i = i + 1;
    }
    assert(views(parts@).take(parts.len() as int) =~= views(parts@));
    out
}

fn code_list_exec(pieces: &Vec<Vec<char>>) -> (r: Vec<u8>)
    ensures
        r@ == code_list(views(pieces@)),
{
    let mut out: Vec<u8> = Vec::new();
    let mut i: usize = 0;
    while i < pieces.len()
        invariant
            i <= pieces.len(),
            out@ == code_list(views(pieces@).take(i as int)),
        decreases pieces.len() - i,
    {
        proof {
            let t = views(pieces@).take(i + 1);
            assert(t.drop_last() =~= views(pieces@).take(i as int));
            assert(t.last() == pieces@[i as int]@);
        }
        match code_weekday_chars(&pieces[i]) {
            Some(w) => out.push(w),
            None => {},
        }
        i = i + 1;
    }
    assert(views(pieces@).take(pieces.len() as int) =~= views(pieces@));
    out
}

fn monthly_rule_exec(spec: &Vec<char>) -> (r: RepeatRule)
    ensures
        r@ == monthly_rule(spec@),
{
    let mut k: usize = 0;
    while k < spec.len() && (('0' <= spec[k] && spec[k] <= '9') || spec[k] == '-')
        invariant
            k <= spec.len(),
            first_other_from(spec@, k as int) == first_other_from(spec@, 0),
        decreases spec.len() - k,
    {
        k = k + 1;
    }
    let cut: usize = if k < spec.len() {
        k
    } else {
        0
    };
    let n_part = crate::text::slice_chars(spec, 0, cut);
    let code_part = crate::text::slice_chars(spec, cut, spec.len());
    match (parse_u8(&n_part), code_weekday_chars(&code_part)) {
        (Some(n), Some(w)) => {
            if 1 <= n && n <= 5 {
                RepeatRule::MonthlyNth(n, w)
            } else {
                RepeatRule::Monthly
            }
        },
        _ => RepeatRule::Monthly,
    }
}

fn rule_of_fields_exec(f: &FieldsExec) -> (r: RepeatRule)
    ensures
        r@ == rule_of_fields(
            RruleFields {
                freq: opt_view(f.freq),
                byday: opt_view(f.byday),
                until: opt_view(f.until),
                unsupported: f.unsupported,
            },
        ),
{
    match &f.freq {
        Some(fr) => {
            if eq_str(fr, "DAILY") {
                RepeatRule::Daily
            } else if eq_str(fr, "WEEKLY") {
                match &f.byday {
                    Some(d) => {
                        let pieces = split_chars(d, ',');
                        let p = code_list_exec(&pieces);
                        if p.len() == 0 {
                            RepeatRule::Weekly
                        } else {
                            RepeatRule::WeeklyOn(p)
                        }
                    },
                    None => RepeatRule::Weekly,
                }
            } else if eq_str(fr, "MONTHLY") {
                match &f.byday {
                    Some(s) => monthly_rule_exec(s),
                    None => RepeatRule::Monthly,
                }
            } else if eq_str(fr, "YEARLY") {
                RepeatRule::Yearly
            } else {
                RepeatRule::NoRepeat
            }
        },
        None => RepeatRule::NoRepeat,
    }
}

fn rrule_chars_parse(value: &Vec<char>) -> (r: (RepeatRule, Option<Date>))
    ensures
        exists|local: Date| #![trigger rrule_spec(value@, local)] local.wf() && (r.0@, r.1)
            == rrule_spec(value@, local),
{
    let parts = split_chars(value, ';');
    let f = rrule_fields_exec(&parts);
    let witness = Date { year: 2000, month: 1, day: 1 };
    if f.unsupported {
        assert(rrule_spec(value@, witness) == (RuleModel::NoRepeat, None::<Date>));
        return (RepeatRule::NoRepeat, None);
    }
    let rule = rule_of_fields_exec(&f);
    match &f.until {
        Some(u) => {
            let until = until_chars(u);
            let ghost local = choose|local: Date| #![trigger until_spec(u@, local)] local.wf()
                && until == until_spec(u@, local);
            assert(rrule_spec(value@, local) == (rule@, until));
            (rule, until)
        },
        None => {
            assert(rrule_spec(value@, witness) == (rule@, None::<Date>));
            (rule, None)
        },
    }
}

/// Reads an `RRULE` value into a repeat rule and its last day. `COUNT`, and an `INTERVAL`
/// other than 1, are not expanded: such a rule becomes a single event with no end date.
pub fn parse_rrule(rrule: &str) -> (r: (RepeatRule, Option<Date>))
    ensures
        exists|local: Date| #![trigger rrule_spec(rrule@, local)] local.wf() && (r.0@, r.1)
            == rrule_spec(rrule@, local),
{
    let v = chars_of(rrule);
    rrule_chars_parse(&v)
}

// ------------------------------------------------------------------
// DTSTART / DTEND values
// ------------------------------------------------------------------

/// The first fourteen ASCII digits of a value.
pub open spec fn value_digits(value: Seq<char>) -> Seq<char> {
    let dg = ascii_digits(value);
    if dg.len() > 14 {
        dg.subrange(0, 14)
    } else {
        dg
    }
}

/// A `DTSTART`/`DTEND` value read as the date, the `HH:MM` time when the value carries a
/// valid one after a `T`, and the date-time. A value ending in `Z` is UTC and stands for
/// `conv`, its local date-time in the machine's time zone. `None` when fewer than eight
/// digits are present or they name no date.
pub open spec fn ics_datetime_spec(value: Seq<char>, conv: DateTime) -> Option<
    (Date, Option<Seq<char>>, Option<DateTime>),
> {
    let dg = value_digits(value);
    if dg.len() < 8 {
        None
    } else {
        match compact_date(dg.subrange(0, 8)) {
            None => None,
            Some(date) => if !contains(value, "T"@) || dg.len() < 12 {
                Some((date, None, None))
            } else {
                let h = field(dg, 8, 10);
                let m = field(dg, 10, 12);
                if h < 24 && m < 60 {
                    let start = DateTime { date, hour: h as u32, minute: m as u32, second: 0 };
                    let local = if ends_with(value, "Z"@) {
                        conv
                    } else {
                        start
                    };
                    Some(
                        (
                            local.date,
                            Some(hm_text(local.hour as int, local.minute as int)),
                            Some(local),
                        ),
                    )
                } else {
                    Some((date, None, None))
                }
            },
        }
    }
}

pub open spec fn dt_view(r: Option<(Date, Option<Vec<char>>, Option<DateTime>)>) -> Option<
    (Date, Option<Seq<char>>, Option<DateTime>),
> {
    match r {
        Some((d, t, s)) => Some((d, opt_view(t), s)),
        None => None,
    }
}

pub open spec fn dt_string_view(r: Option<(Date, Option<String>, Option<DateTime>)>) -> Option<
    (Date, Option<Seq<char>>, Option<DateTime>),
> {
    match r {
        Some((d, t, s)) => Some(
            (
                d,
                match t {
                    Some(x) => Some(x@),
                    None => None,
                },
                s,
            ),
        ),
        None => None,
    }
}

/// `%H:%M` of a time.
pub fn hm_chars(h: u32, m: u32) -> (r: Vec<char>)
    requires
        h < 100,
        m < 100,
    ensures
        r@ == hm_text(h as int, m as int),
{
    let mut out = crate::text::two_digits_exec(h as u64);
    out.push(':');
    let mm = crate::text::two_digits_exec(m as u64);
    append_all(&mut out, &mm);
    out
}

fn datetime_chars(value: &Vec<char>) -> (r: Option<(Date, Option<Vec<char>>, Option<DateTime>)>)
    ensures
        exists|conv: DateTime| #![trigger ics_datetime_spec(value@, conv)] conv.wf() && dt_view(r)
            == ics_datetime_spec(value@, conv),
        r matches Some((d, _, s)) ==> d.wf() && (s matches Some(t) ==> t.wf()),
{
    let witness = DateTime { date: Date { year: 2000, month: 1, day: 1 }, hour: 0, minute: 0, second: 0 };
    assert(witness.wf());
    let all = ascii_digits_chars(value);
    proof {
        lemma_ascii_digits(value@);
    }
    let dg = if all.len() > 14 {
        crate::text::slice_chars(&all, 0, 14)
    } else {
        all
    };
    assert(dg@ == value_digits(value@));
    assert(all_digits(dg@));
    if dg.len() < 8 {
        assert(ics_datetime_spec(value@, witness) == None::<(Date, Option<Seq<char>>, Option<DateTime>)>);
        return None;
    }
    let d8 = crate::text::slice_chars(&dg, 0, 8);
    assert(all_digits(d8@));
    let date = match compact_date_exec(&d8) {
        Some(d) => d,
        None => {
            assert(ics_datetime_spec(value@, witness) == None::<(Date, Option<Seq<char>>, Option<DateTime>)>);
            return None;
        },
    };
    proof {
        crate::text::lemma_four_digits(d8@.subrange(0, 4));
        assert(d8@.subrange(0, 4) =~= dg@.subrange(0, 4));
    }
    if !crate::text::contains_str(value, "T") || dg.len() < 12 {
        assert(ics_datetime_spec(value@, witness) == Some((date, None::<Seq<char>>, None::<DateTime>)));
        return Some((date, None, None));
    }
    let mut cand: Vec<char> = Vec::new();
    cand.push(dg[8]);
    cand.push(dg[9]);
    cand.push(':');
    cand.push(dg[10]);
    cand.push(dg[11]);
    proof {
        assert(cand@.subrange(0, 2) =~= dg@.subrange(8, 10));
        assert(cand@.subrange(3, 5) =~= dg@.subrange(10, 12));
        assert(hm_shape(cand@));
    }
    let text = string_from_chars(&cand);
    match parse_hm(text.as_str()) {
        None => {
            assert(ics_datetime_spec(value@, witness) == Some((date, None::<Seq<char>>, None::<DateTime>)));
            Some((date, None, None))
        },
        Some((h, m)) => {
            let start = DateTime { date, hour: h, minute: m, second: 0 };
            let local = if crate::text::ends_with_str(value, "Z") {
                utc_to_local(start)
            } else {
                start
            };
            let t = hm_chars(local.hour, local.minute);
            assert(ics_datetime_spec(value@, local) == dt_view(Some((local.date, Some(t), Some(local)))));
            Some((local.date, Some(t), Some(local)))
        },
    }
}

/// Reads a `DTSTART` or `DTEND` value: the date, the `HH:MM` time and the date-time. A UTC
/// value (ending in `Z`) is moved into the machine's time zone, which is why the contract
/// speaks of some valid local date-time.
pub fn parse_ics_datetime(value: &str) -> (r: Option<(Date, Option<String>, Option<DateTime>)>)
    ensures
        exists|conv: DateTime| #![trigger ics_datetime_spec(value@, conv)] conv.wf()
            && dt_string_view(r) == ics_datetime_spec(value@, conv),
{
    let v = chars_of(value);
    match datetime_chars(&v) {
        Some((d, t, s)) => {
            let ts = match t {
                Some(x) => Some(string_from_chars(&x)),
                None => None,
            };
            Some((d, ts, s))
        },
        None => None,
    }
}

// ------------------------------------------------------------------
// DURATION values
// ------------------------------------------------------------------

/// The state of reading the time part of a duration: pending digits, minutes so far, and
/// whether the reading failed or would leave the range of `i64`.
pub struct DurState {
    pub number: Seq<char>,
    pub minutes: int,
    pub failed: bool,
    pub overflow: bool,
}

pub open spec fn in_i64(x: int) -> bool {
    i64::MIN <= x <= i64::MAX
}

/// Reads `1H30M`-style text character by character: digits collect, and each of `H`, `M`
/// and `S` adds the collected number as hours, minutes, or one minute for a positive count
/// of seconds. Any other letter, or a unit with no number before it, fails.
pub open spec fn dur_scan(t: Seq<char>) -> DurState
    decreases t.len(),
{
    if t.len() == 0 {
        DurState { number: seq![], minutes: 0, failed: false, overflow: false }
    } else {
        let st = dur_scan(t.drop_last());
        let ch = t.last();
        if st.failed || st.overflow {
            st
        } else if is_digit(ch) {
            DurState { number: st.number.push(ch), ..st }
        } else {
            match parse_i64_spec(st.number) {
                None => DurState { failed: true, ..st },
                Some(a) => if ch == 'H' {
                    if in_i64(a * 60) && in_i64(st.minutes + a * 60) {
                        DurState { number: seq![], minutes: st.minutes + a * 60, ..st }
                    } else {
                        DurState { overflow: true, ..st }
                    }
                } else if ch == 'M' {
                    if in_i64(st.minutes + a) {
                        DurState { number: seq![], minutes: st.minutes + a, ..st }
                    } else {
                        DurState { overflow: true, ..st }
                    }
                } else if ch == 'S' {
                    let add: int = if a > 0 {
                        1
                    } else {
                        0
                    };
                    if in_i64(st.minutes + add) {
                        DurState { number: seq![], minutes: st.minutes + add, ..st }
                    } else {
                        DurState { overflow: true, ..st }
                    }
                } else {
                    DurState { failed: true, ..st }
                },
            }
        }
    }
}

/// The time part of an ISO 8601 duration `P...T...` after trimming, if the prefix is there.
pub open spec fn duration_time_part(value: Seq<char>) -> Option<Seq<char>> {
    let v = trim(value);
    if v.len() >= 2 && v[0] == 'P' && v[1] == 'T' {
        Some(v.subrange(2, v.len() as int))
    } else {
        None
    }
}

/// An ISO 8601 duration such as `PT45M` or `PT1H30M`, in whole minutes; `None` unless the
/// value reads and comes to a positive number of minutes.
pub open spec fn duration_spec(value: Seq<char>) -> Option<int> {
    match duration_time_part(value) {
        None => None,
        Some(t) => {
            let st = dur_scan(t);
            if st.failed || st.minutes <= 0 {
                None
            } else {
                Some(st.minutes)
            }
        },
    }
}

/// The duration's arithmetic would overflow an `i64` (where the original panics).
pub open spec fn duration_overflows(value: Seq<char>) -> bool {
    match duration_time_part(value) {
        None => false,
        Some(t) => dur_scan(t).overflow,
    }
}

proof fn lemma_dur_stuck(t: Seq<char>, i: int)
    requires
        0 <= i <= t.len(),
        dur_scan(t.take(i)).overflow || dur_scan(t.take(i)).failed,
    ensures
        dur_scan(t) == dur_scan(t.take(i)),
    decreases t.len() - i,
{
    if i < t.len() {
        assert(t.take(i + 1).drop_last() =~= t.take(i));
        lemma_dur_stuck(t, i + 1);
    } else {
        assert(t.take(i) =~= t);
    }
}

proof fn lemma_dur_number(t: Seq<char>)
    ensures
        all_digits(dur_scan(t).number),
    decreases t.len(),
{
    if t.len() > 0 {
        lemma_dur_number(t.drop_last());
    }
}

fn duration_chars(value: &Vec<char>) -> (r: Option<i64>)
    requires
        !duration_overflows(value@),
    ensures
        r matches Some(m) ==> duration_spec(value@) == Some(m as int),
        r is None ==> duration_spec(value@) is None,
{
    let v = trim_chars(value);
    if v.len() < 2 || v[0] != 'P' || v[1] != 'T' {
        return None;
    }
    let t = crate::text::slice_chars(&v, 2, v.len());
    assert(duration_time_part(value@) == Some(t@));
    let mut number: Vec<char> = Vec::new();
    let mut minutes: i64 = 0;
    let mut i: usize = 0;
    while i < t.len()
        invariant
            i <= t.len(),
            duration_time_part(value@) == Some(t@),
            !dur_scan(t@).overflow,
            ({
                let st = dur_scan(t@.take(i as int));
                &&& !st.failed && !st.overflow
                &&& number@ == st.number
                &&& minutes == st.minutes
            }),
        decreases t.len() - i,
    {
        let ch = t[i];
        assert(t@.take(i + 1).drop_last() =~= t@.take(i as int));
        assert(t@.take(i + 1).last() == ch);
        if '0' <= ch && ch <= '9' {
            number.push(ch);
        } else {
            proof {
                lemma_dur_number(t@.take(i as int));
            }
            let amount = match parse_i64(&number) {
                Some(a) => a,
                None => {
                    proof {
                        assert(dur_scan(t@.take(i + 1)).failed);
                        lemma_dur_stuck(t@, i + 1);
                    }
                    return None;
                },
            };
            proof {
                if dur_scan(t@.take(i + 1)).overflow {
                    lemma_dur_stuck(t@, i + 1);
                }
            }
            if ch == 'H' {
                minutes = minutes + amount * 60;
            } else if ch == 'M' {
                minutes = minutes + amount;
            } else if ch == 'S' {
                minutes = minutes + if amount > 0 {
                    1
                } else {
                    0
                };
            } else {
                proof {
                    assert(dur_scan(t@.take(i + 1)).failed);
                    lemma_dur_stuck(t@, i + 1);
                }
                return None;
            }
            number = Vec::new();
        }
        i = i + 1;
    }
    assert(t@.take(t.len() as int) =~= t@);
    if minutes > 0 {
        Some(minutes)
    } else {
        None
    }
}

/// Reads an ISO 8601 duration such as `PT45M` or `PT1H30M` as whole minutes.
pub fn parse_duration_minutes(value: &str) -> (r: Option<i64>)
    requires
        !duration_overflows(value@),
    ensures
        r matches Some(m) ==> duration_spec(value@) == Some(m as int),
        r is None ==> duration_spec(value@) is None,
{
    let v = chars_of(value);
    duration_chars(&v)
}

// ------------------------------------------------------------------
// Whole calendars
// ------------------------------------------------------------------

/// One event read from a calendar.
#[derive(Debug, Clone)]
pub struct ImportedEvent {
    pub uid: String,
    pub title: String,
    pub date: Date,
    pub time: Option<String>,
    pub note: String,
    /// The meeting place, when the source gives a `LOCATION`.
    pub location: String,
    /// The online meeting link, when the source gives a `URL`.
    pub url: String,
    /// From `DURATION`, or from `DTSTART` and `DTEND`; 60 minutes when neither gives a
    /// positive length.
    pub duration_minutes: i64,
    pub repeat_rule: RepeatRule,
    /// The last day of the series (`UNTIL`), inclusive.
    pub repeat_until: Option<Date>,
    /// `STATUS:CANCELLED`, or a title that Outlook marks as cancelled.
    pub cancelled: bool,
}

/// An imported event as a mathematical value.
pub struct EventModel {
    pub uid: Seq<char>,
    pub title: Seq<char>,
    pub date: Date,
    pub time: Option<Seq<char>>,
    pub note: Seq<char>,
    pub location: Seq<char>,
    pub url: Seq<char>,
    pub duration: int,
    pub rule: RuleModel,
    pub until: Option<Date>,
    pub cancelled: bool,
}

impl View for ImportedEvent {
    type V = EventModel;

    open spec fn view(&self) -> EventModel {
        EventModel {
            uid: self.uid@,
            title: self.title@,
            date: self.date,
            time: match self.time {
                Some(t) => Some(t@),
                None => None,
            },
            note: self.note@,
            location: self.location@,
            url: self.url@,
            duration: self.duration_minutes as int,
            rule: self.repeat_rule@,
            until: self.repeat_until,
            cancelled: self.cancelled,
        }
    }
}

pub open spec fn event_views(v: Seq<ImportedEvent>) -> Seq<EventModel> {
    Seq::new(v.len(), |i: int| v[i]@)
}

/// What the reader holds while it walks through the lines.
pub struct IcsState {
    pub in_event: bool,
    pub summary: Seq<char>,
    pub uid: Seq<char>,
    pub date: Option<Date>,
    pub time: Option<Seq<char>>,
    pub note: Seq<char>,
    pub location: Seq<char>,
    pub url: Seq<char>,
    pub rule: RuleModel,
    pub until: Option<Date>,
    pub cancelled: bool,
    pub start: Option<DateTime>,
    pub end: Option<DateTime>,
    pub explicit: Option<int>,
    pub events: Seq<EventModel>,
}

/// The state with every field of the current event cleared.
pub open spec fn cleared_state(in_event: bool, events: Seq<EventModel>) -> IcsState {
    IcsState {
        in_event,
        summary: seq![],
        uid: seq![],
        date: None,
        time: None,
        note: seq![],
        location: seq![],
        url: seq![],
        rule: RuleModel::NoRepeat,
        until: None,
        cancelled: false,
        start: None,
        end: None,
        explicit: None,
        events,
    }
}

/// Whole minutes from `s` to `e`, rounded toward zero (`TimeDelta::num_minutes`).
pub open spec fn minutes_between(s: DateTime, e: DateTime) -> int {
    let d = e.seconds() - s.seconds();
    if d >= 0 {
        d / 60
    } else {
        -((-d) / 60)
    }
}

/// The length of the current event: its `DURATION` if given, else the minutes from
/// `DTSTART` to `DTEND`; 60 when that is not positive or not known.
pub open spec fn event_duration(st: IcsState) -> int {
    match st.explicit {
        Some(m) => if m > 0 {
            m
        } else {
            60
        },
        None => match (st.end, st.start) {
            (Some(e), Some(s)) => {
                let m = minutes_between(s, e);
                if m > 0 {
                    m
                } else {
                    60
                }
            },
            _ => 60,
        },
    }
}

pub open spec fn finished_event(st: IcsState, date: Date) -> EventModel {
    EventModel {
        uid: st.uid,
        title: st.summary,
        date,
        time: st.time,
        note: st.note,
        location: st.location,
        url: st.url,
        duration: event_duration(st),
        rule: st.rule,
        until: st.until,
        cancelled: st.cancelled || marks_cancelled(st.summary),
    }
}

/// The property name of a content line's name part, without parameters (`DTSTART;TZID=..`
/// names `DTSTART`).
pub open spec fn key_of(name: Seq<char>) -> Seq<char> {
    match split_once(name, ';') {
        Some((k, _)) => k,
        None => name,
    }
}

/// A content line as its property name and value, split at the first colon.
pub open spec fn line_key_value(line: Seq<char>) -> Option<(Seq<char>, Seq<char>)> {
    match split_once(line, ':') {
        Some((name, value)) => Some((key_of(name), value)),
        None => None,
    }
}

/// Equality of texts ignoring ASCII case (`eq_ignore_ascii_case`).
pub open spec fn eq_ignore_case(a: Seq<char>, b: Seq<char>) -> bool {
    lower_ascii(a) == lower_ascii(b)
}

/// One property of the current event; `conv` is the local date-time of a UTC value.
pub open spec fn field_step(st: IcsState, key: Seq<char>, value: Seq<char>, conv: DateTime) -> IcsState {
    if key == "UID"@ {
        IcsState { uid: unescape_spec(value), ..st }
    } else if key == "SUMMARY"@ {
        IcsState { summary: unescape_spec(value), ..st }
    } else if key == "DESCRIPTION"@ {
        IcsState { note: unescape_spec(value), ..st }
    } else if key == "LOCATION"@ {
        IcsState { location: unescape_spec(value), ..st }
    } else if key == "URL"@ {
        IcsState { url: unescape_spec(value), ..st }
    } else if key == "DURATION"@ {
        IcsState { explicit: duration_spec(value), ..st }
    } else if key == "RRULE"@ {
        let (r, u) = rrule_spec(value, conv.date);
        IcsState { rule: r, until: u, ..st }
    } else if key == "STATUS"@ {
        IcsState { cancelled: eq_ignore_case(value, "CANCELLED"@), ..st }
    } else if key == "DTSTART"@ {
        match ics_datetime_spec(value, conv) {
            Some((d, t, s)) => IcsState { date: Some(d), time: t, start: s, ..st },
            None => st,
        }
    } else if key == "DTEND"@ {
        IcsState {
            end: match ics_datetime_spec(value, conv) {
                Some((_, _, e)) => e,
                None => None,
            },
            ..st
        }
    } else {
        st
    }
}

/// One line of the unfolded calendar. `BEGIN:VEVENT` starts a fresh event; `END:VEVENT`
/// closes it, keeping it when it has a start date; inside an event every other line with a
/// colon sets a property.
pub open spec fn ics_step(st: IcsState, raw: Seq<char>, conv: DateTime) -> IcsState {
    let line = trim_cr(raw);
    if line == "BEGIN:VEVENT"@ {
        cleared_state(true, st.events)
    } else if line == "END:VEVENT"@ {
        IcsState {
            in_event: false,
            events: if st.in_event && st.date is Some {
                st.events.push(finished_event(st, st.date->0))
            } else {
                st.events
            },
            ..st
        }
    } else if !st.in_event {
        st
    } else {
        match line_key_value(line) {
            None => st,
            Some((key, value)) => field_step(st, key, value, conv),
        }
    }
}

/// The state after the first `n` lines, `convs[i]` being the local date-time that the
/// machine gives a UTC value on line `i`.
pub open spec fn ics_fold(lines: Seq<Seq<char>>, convs: Seq<DateTime>, n: int) -> IcsState
    decreases n,
{
    if n <= 0 {
        cleared_state(false, seq![])
    } else {
        ics_step(ics_fold(lines, convs, n - 1), lines[n - 1], convs[n - 1])
    }
}

/// The lines of the unfolded text.
pub open spec fn ics_lines(content: Seq<char>) -> Seq<Seq<char>> {
    split(unfold_spec(content), '\n')
}

/// The events a calendar text holds, given the local date-times of its UTC values.
pub open spec fn ics_events(content: Seq<char>, convs: Seq<DateTime>) -> Seq<EventModel> {
    let lines = ics_lines(content);
    ics_fold(lines, convs, lines.len() as int).events
}

/// Whether the reader is inside an event after the first `n` lines.
pub open spec fn in_event_after(lines: Seq<Seq<char>>, n: int) -> bool
    decreases n,
{
    if n <= 0 {
        false
    } else {
        let l = trim_cr(lines[n - 1]);
        if l == "BEGIN:VEVENT"@ {
            true
        } else if l == "END:VEVENT"@ {
            false
        } else {
            in_event_after(lines, n - 1)
        }
    }
}

/// A `DURATION` line whose arithmetic stays within `i64`.
pub open spec fn line_duration_ok(line: Seq<char>) -> bool {
    match line_key_value(line) {
        Some((k, v)) => k == "DURATION"@ ==> !duration_overflows(v),
        None => true,
    }
}

/// Every `DURATION` read inside an event stays within `i64`.
pub open spec fn durations_fit(lines: Seq<Seq<char>>) -> bool {
    forall|i: int|
        0 <= i < lines.len() && #[trigger] in_event_after(lines, i) ==> line_duration_ok(
            trim_cr(lines[i]),
        )
}

pub open spec fn opt_i64_view(o: Option<i64>) -> Option<int> {
    match o {
        Some(m) => Some(m as int),
        None => None,
    }
}

struct IcsReader {
    in_event: bool,
    summary: Vec<char>,
    uid: Vec<char>,
    date: Option<Date>,
    time: Option<Vec<char>>,
    note: Vec<char>,
    location: Vec<char>,
    url: Vec<char>,
    rule: RepeatRule,
    until: Option<Date>,
    cancelled: bool,
    start: Option<DateTime>,
    end: Option<DateTime>,
    explicit: Option<i64>,
    events: Vec<ImportedEvent>,
}

impl IcsReader {
    spec fn state(&self) -> IcsState {
        IcsState {
            in_event: self.in_event,
            summary: self.summary@,
            uid: self.uid@,
            date: self.date,
            time: opt_view(self.time),
            note: self.note@,
            location: self.location@,
            url: self.url@,
            rule: self.rule@,
            until: self.until,
            cancelled: self.cancelled,
            start: self.start,
            end: self.end,
            explicit: opt_i64_view(self.explicit),
            events: event_views(self.events@),
        }
    }

    spec fn inv(&self) -> bool {
        &&& (self.start matches Some(t) ==> t.wf())
        &&& (self.end matches Some(t) ==> t.wf())
        &&& (self.date matches Some(d) ==> d.wf())
        &&& forall|k: int| 0 <= k < self.events@.len() ==> (#[trigger] self.events@[k]).date.wf()
    }

    fn new() -> (r: IcsReader)
        ensures
            r.inv(),
            r.state() == cleared_state(false, seq![]),
    {
        let r = IcsReader {
            in_event: false,
            summary: Vec::new(),
            uid: Vec::new(),
            date: None,
            time: None,
            note: Vec::new(),
            location: Vec::new(),
            url: Vec::new(),
            rule: RepeatRule::NoRepeat,
            until: None,
            cancelled: false,
            start: None,
            end: None,
            explicit: None,
            events: Vec::new(),
        };
        assert(event_views(r.events@) =~= Seq::<EventModel>::empty());
        r
    }

    fn clear(&mut self)
        requires
            old(self).inv(),
        ensures
            final(self).inv(),
            final(self).state() == cleared_state(true, old(self).state().events),
    {
        self.in_event = true;
        self.summary = Vec::new();
        self.uid = Vec::new();
        self.date = None;
        self.time = None;
        self.note = Vec::new();
        self.location = Vec::new();
        self.url = Vec::new();
        self.rule = RepeatRule::NoRepeat;
        self.until = None;
        self.cancelled = false;
        self.start = None;
        self.end = None;
        self.explicit = None;
    }

    fn duration(&self) -> (m: i64)
        requires
            self.inv(),
        ensures
            m == event_duration(self.state()),
    {
        match self.explicit {
            Some(m) => if m > 0 {
                m
            } else {
                60
            },
            None => match (self.end, self.start) {
                (Some(e), Some(s)) => {
                    proof {
                        crate::date::lemma_seconds_range(e);
                        crate::date::lemma_seconds_range(s);
                    }
                    let d = e.seconds_exec() - s.seconds_exec();
                    let m = if d >= 0 {
                        d / 60
                    } else {
                        -((-d) / 60)
                    };
                    if m > 0 {
                        m
                    } else {
                        60
                    }
                },
                _ => 60,
            },
        }
    }

    fn finish(&mut self)
        requires
            old(self).inv(),
        ensures
            final(self).inv(),
            final(self).state() == ({
                let st = old(self).state();
                IcsState {
                    in_event: false,
                    events: if st.in_event && st.date is Some {
                        st.events.push(finished_event(st, st.date->0))
                    } else {
                        st.events
                    },
                    ..st
                }
            }),
    {
        if self.in_event {
            if let Some(d) = self.date {
                let ev = ImportedEvent {
                    uid: string_from_chars(&self.uid),
                    title: string_from_chars(&self.summary),
                    date: d,
                    time: match &self.time {
                        Some(t) => Some(string_from_chars(t)),
                        None => None,
                    },
                    note: string_from_chars(&self.note),
                    location: string_from_chars(&self.location),
                    url: string_from_chars(&self.url),
                    duration_minutes: self.duration(),
                    repeat_rule: self.rule.copied(),
                    repeat_until: self.until,
                    cancelled: self.cancelled || marks_cancelled_chars(&self.summary),
                };
                let ghost before = event_views(self.events@);
                self.events.push(ev);
                assert(event_views(self.events@) =~= before.push(ev@));
            }
        }
        self.in_event = false;
    }

    fn set_field(&mut self, key: &Vec<char>, value: &Vec<char>) -> (conv: Ghost<DateTime>)
        requires
            old(self).inv(),
            key@ == "DURATION"@ ==> !duration_overflows(value@),
        ensures
            final(self).inv(),
            conv@.wf(),
            final(self).state() == field_step(old(self).state(), key@, value@, conv@),
    {
        let ghost witness = DateTime { date: Date { year: 2000, month: 1, day: 1 }, hour: 0, minute: 0, second: 0 };
        assert(witness.wf());
        if eq_str(key, "UID") {
            self.uid = unescape_chars(value);
        } else if eq_str(key, "SUMMARY") {
            self.summary = unescape_chars(value);
        } else if eq_str(key, "DESCRIPTION") {
            self.note = unescape_chars(value);
        } else if eq_str(key, "LOCATION") {
            self.location = unescape_chars(value);
        } else if eq_str(key, "URL") {
            self.url = unescape_chars(value);
        } else if eq_str(key, "DURATION") {
            self.explicit = duration_chars(value);
        } else if eq_str(key, "RRULE") {
            let (r, u) = rrule_chars_parse(value);
            let ghost local = choose|local: Date| #![trigger rrule_spec(value@, local)] local.wf()
                && (r@, u) == rrule_spec(value@, local);
            self.rule = r;
            self.until = u;
            let ghost conv = DateTime { date: local, hour: 0, minute: 0, second: 0 };
            return Ghost(conv);
        } else if eq_str(key, "STATUS") {
            let lv = lower_ascii_chars(value);
            let c = chars_of("CANCELLED");
            let lc = lower_ascii_chars(&c);
            self.cancelled = crate::text::seq_eq(&lv, &lc);
        } else if eq_str(key, "DTSTART") {
            let parsed = datetime_chars(value);
            let ghost conv = choose|conv: DateTime| #![trigger ics_datetime_spec(value@, conv)] conv.wf()
                && dt_view(parsed) == ics_datetime_spec(value@, conv);
            if let Some((d, t, st)) = parsed {
                self.date = Some(d);
                self.time = t;
                self.start = st;
            }
            return Ghost(conv);
        } else if eq_str(key, "DTEND") {
            let parsed = datetime_chars(value);
            let ghost conv = choose|conv: DateTime| #![trigger ics_datetime_spec(value@, conv)] conv.wf()
                && dt_view(parsed) == ics_datetime_spec(value@, conv);
            self.end = match parsed {
                Some((_, _, e)) => e,
                None => None,
            };
            return Ghost(conv);
        }
        Ghost(witness)
    }

    fn feed(&mut self, raw: &Vec<char>) -> (conv: Ghost<DateTime>)
        requires
            old(self).inv(),
            old(self).in_event ==> line_duration_ok(trim_cr(raw@)),
        ensures
            final(self).inv(),
            conv@.wf(),
            final(self).state() == ics_step(old(self).state(), raw@, conv@),
    {
        let ghost witness = DateTime { date: Date { year: 2000, month: 1, day: 1 }, hour: 0, minute: 0, second: 0 };
        let line = trim_cr_chars(raw);
        if eq_str(&line, "BEGIN:VEVENT") {
            self.clear();
            return Ghost(witness);
        }
        if eq_str(&line, "END:VEVENT") {
            self.finish();
            return Ghost(witness);
        }
        if !self.in_event {
            return Ghost(witness);
        }
        match split_once_chars(&line, ':') {
            None => Ghost(witness),
            Some((name, value)) => {
                let key = match split_once_chars(&name, ';') {
                    Some((k, _)) => k,
                    None => name,
                };
                self.set_field(&key, &value)
            },
        }
    }
}

fn read_lines(lines: &Vec<Vec<char>>) -> (r: Vec<ImportedEvent>)
    requires
        durations_fit(views(lines@)),
    ensures
        exists|convs: Seq<DateTime>|
            convs.len() == lines.len() && (forall|i: int| 0 <= i < convs.len() ==> (#[trigger] convs[i]).wf())
                && event_views(r@) == ics_fold(views(lines@), convs, lines.len() as int).events,
        forall|k: int| 0 <= k < r@.len() ==> (#[trigger] r@[k]).date.wf(),
{
    let mut reader = IcsReader::new();
    let ghost mut convs: Seq<DateTime> = seq![];
    let mut i: usize = 0;
    while i < lines.len()
        invariant
            i <= lines.len(),
            durations_fit(views(lines@)),
            reader.inv(),
            convs.len() == i,
            forall|k: int| 0 <= k < convs.len() ==> (#[trigger] convs[k]).wf(),
            reader.state() == ics_fold(views(lines@), convs, i as int),
            reader.in_event == in_event_after(views(lines@), i as int),
        decreases lines.len() - i,
    {
        assert(views(lines@)[i as int] == lines@[i as int]@);
        let ghost before = reader.state();
        let conv = reader.feed(&lines[i]);
        proof {
            let next = convs.push(conv@);
            lemma_fold_prefix(views(lines@), convs, next, i as int);
            convs = next;
        }
        i = i + 1;
    }
    reader.events
}

proof fn lemma_fold_prefix(lines: Seq<Seq<char>>, a: Seq<DateTime>, b: Seq<DateTime>, n: int)
    requires
        0 <= n <= a.len(),
        n <= b.len(),
        forall|k: int| 0 <= k < n ==> a[k] == b[k],
    ensures
        ics_fold(lines, a, n) == ics_fold(lines, b, n),
    decreases n,
{
    if n > 0 {
        lemma_fold_prefix(lines, a, b, n - 1);
    }
}

/// Reads every `VEVENT` of a calendar text: the lines are unfolded first, then each event
/// block is read. Reading never fails; an event without a readable start date is skipped.
/// UTC values are moved into the machine's time zone, which is why the contract speaks of
/// some valid local date-time for each line.
pub fn parse_ics(content: &str) -> (r: Result<Vec<ImportedEvent>, String>)
    requires
        durations_fit(ics_lines(content@)),
    ensures
        r is Ok,
        r matches Ok(events) ==> exists|convs: Seq<DateTime>|
            convs.len() == ics_lines(content@).len() && (forall|i: int|
                0 <= i < convs.len() ==> (#[trigger] convs[i]).wf()) && event_views(events@)
                == ics_events(content@, convs),
        r matches Ok(events) ==> forall|k: int| 0 <= k < events@.len() ==> (#[trigger] events@[k]).date.wf(),
{
    let v = chars_of(content);
    let unfolded = unfold_chars(&v);
    let lines = split_chars(&unfolded, '\n');
    let events = read_lines(&lines);
    assert(views(lines@) == ics_lines(content@));
    assert(views(lines@).len() == lines.len());
    let ghost convs = choose|convs: Seq<DateTime>|
        convs.len() == lines.len() && (forall|i: int| 0 <= i < convs.len() ==> (#[trigger] convs[i]).wf())
            && event_views(events@) == ics_fold(views(lines@), convs, lines.len() as int).events;
    assert(event_views(events@) == ics_events(content@, convs));
    Ok(events)
}

/// Whether reading the time part of a duration leaves the range of `i64`.
fn dur_overflow_chars(t: &Vec<char>) -> (b: bool)
    ensures
        b == dur_scan(t@).overflow,
{
    let mut number: Vec<char> = Vec::new();
    let mut minutes: i64 = 0;
    let mut i: usize = 0;
    while i < t.len()
        invariant
            i <= t.len(),
            ({
                let st = dur_scan(t@.take(i as int));
                &&& !st.failed && !st.overflow
                &&& number@ == st.number
                &&& minutes == st.minutes
            }),
        decreases t.len() - i,
    {
        let ch = t[i];
        assert(t@.take(i + 1).drop_last() =~= t@.take(i as int));
        assert(t@.take(i + 1).last() == ch);
        if '0' <= ch && ch <= '9' {
            number.push(ch);
        } else {
            let amount = match parse_i64(&number) {
                Some(a) => a,
                None => {
                    proof {
                        lemma_dur_stuck(t@, i + 1);
                    }
                    return false;
                },
            };
            let added: Option<i64> = if ch == 'H' {
                match amount.checked_mul(60) {
                    Some(h) => minutes.checked_add(h),
                    None => None,
                }
            } else if ch == 'M' {
                minutes.checked_add(amount)
            } else if ch == 'S' {
                minutes.checked_add(if amount > 0 {
                    1
                } else {
                    0
                })
            } else {
                proof {
                    lemma_dur_stuck(t@, i + 1);
                }
                return false;
            };
            match added {
                Some(m) => {
                    minutes = m;
                },
                None => {
                    proof {
                        lemma_dur_stuck(t@, i + 1);
                    }
                    return true;
                },
            }
            number = Vec::new();
        }
        i = i + 1;
    }
    assert(t@.take(t.len() as int) =~= t@);
    false
}

/// Whether a content line read inside an event is a `DURATION` that fits in `i64`, or
/// no duration at all.
fn line_duration_ok_chars(line: &Vec<char>) -> (b: bool)
    ensures
        b == line_duration_ok(line@),
{
    match split_once_chars(line, ':') {
        None => true,
        Some((name, value)) => {
            let key = match split_once_chars(&name, ';') {
                Some((k, _)) => k,
                None => name,
            };
            if !eq_str(&key, "DURATION") {
                return true;
            }
            let v = trim_chars(&value);
            if v.len() < 2 || v[0] != 'P' || v[1] != 'T' {
                return true;
            }
            let t = crate::text::slice_chars(&v, 2, v.len());
            assert(duration_time_part(value@) == Some(t@));
            !dur_overflow_chars(&t)
        },
    }
}

/// Whether every `DURATION` inside an event of the calendar text stays within `i64`, which
/// `parse_ics` needs. A calendar that fails it is refused before reading.
pub fn durations_readable(content: &str) -> (b: bool)
    ensures
        b == durations_fit(ics_lines(content@)),
{
    let v = chars_of(content);
    let unfolded = unfold_chars(&v);
    let lines = split_chars(&unfolded, '\n');
    assert(views(lines@) == ics_lines(content@));
    let ghost ls = views(lines@);
    let mut in_event = false;
    let mut i: usize = 0;
    while i < lines.len()
        invariant
            i <= lines.len(),
            ls == views(lines@),
            ls == ics_lines(content@),
            ls.len() == lines.len(),
            in_event == in_event_after(ls, i as int),
            forall|k: int|
                0 <= k < i && #[trigger] in_event_after(ls, k) ==> line_duration_ok(trim_cr(ls[k])),
        decreases lines.len() - i,
    {
        assert(ls[i as int] == lines@[i as int]@);
        let line = trim_cr_chars(&lines[i]);
        if in_event && !line_duration_ok_chars(&line) {
            assert(in_event_after(ls, i as int) && !line_duration_ok(trim_cr(ls[i as int])));
            return false;
        }
        if eq_str(&line, "BEGIN:VEVENT") {
            in_event = true;
        } else if eq_str(&line, "END:VEVENT") {
            in_event = false;
        }
        i = i + 1;
    }
    true
}

// ------------------------------------------------------------------
// Export
// ------------------------------------------------------------------

/// One event to export: the stored event itself, not its expanded occurrences (the repeat
/// rule travels as an `RRULE`).
pub struct ExportEvent<'a> {
    pub uid: String,
    pub title: &'a str,
    pub date: Date,
    pub time: Option<&'a str>,
    pub note: &'a str,
    pub repeat_rule: &'a RepeatRule,
}

/// An event to export as a mathematical value.
pub struct ExportModel {
    pub uid: Seq<char>,
    pub title: Seq<char>,
    pub date: Date,
    pub time: Option<Seq<char>>,
    pub note: Seq<char>,
    pub rule: RuleModel,
}

impl<'a> View for ExportEvent<'a> {
    type V = ExportModel;

    open spec fn view(&self) -> ExportModel {
        ExportModel {
            uid: self.uid@,
            title: self.title@,
            date: self.date,
            time: match self.time {
                Some(t) => Some(t@),
                None => None,
            },
            note: self.note@,
            rule: self.repeat_rule@,
        }
    }
}

pub open spec fn export_views(v: Seq<ExportEvent>) -> Seq<ExportModel> {
    Seq::new(v.len(), |i: int| v[i]@)
}

pub open spec fn crlf() -> Seq<char> {
    seq!['\r', '\n']
}

/// The start line: a timed event gets `%Y%m%dT%H%M%S` with the time read by chrono's
/// `%H:%M` (09:00 when the time does not read); an all-day event gets `VALUE=DATE`.
pub open spec fn dtstart_line(ev: ExportModel) -> Seq<char> {
    match ev.time {
        Some(t) => {
            let hm: (u32, u32) = match chrono_parse_hm(t) {
                Some(x) => x,
                None => (9u32, 0u32),
            };
            "DTSTART:"@ + compact_date_text(ev.date) + "T"@ + two_digits(hm.0 as int) + two_digits(
                hm.1 as int,
            ) + "00"@ + crlf()
        },
        None => "DTSTART;VALUE=DATE:"@ + compact_date_text(ev.date) + crlf(),
    }
}

/// `%Y%m%dT%H%M%SZ` of a UTC time.
pub open spec fn stamp_text(t: DateTime) -> Seq<char> {
    compact_date_text(t.date) + "T"@ + two_digits(t.hour as int) + two_digits(t.minute as int)
        + two_digits(t.second as int) + "Z"@
}

pub open spec fn rrule_line(r: RuleModel) -> Seq<char> {
    match rrule_text(r) {
        Some(x) => "RRULE:"@ + x + crlf(),
        None => seq![],
    }
}

pub open spec fn event_block(ev: ExportModel, stamp: DateTime) -> Seq<char> {
    "BEGIN:VEVENT"@ + crlf() + "UID:"@ + ev.uid + crlf() + "DTSTAMP:"@ + stamp_text(stamp) + crlf()
        + dtstart_line(ev) + rrule_line(ev.rule) + "SUMMARY:"@ + escape_spec(ev.title) + crlf() + (
    if ev.note.len() > 0 {
        "DESCRIPTION:"@ + escape_spec(ev.note) + crlf()
    } else {
        seq![]
    }) + "END:VEVENT"@ + crlf()
}

pub open spec fn event_blocks(evs: Seq<ExportModel>, stamp: DateTime) -> Seq<char>
    decreases evs.len(),
{
    if evs.len() == 0 {
        seq![]
    } else {
        event_blocks(evs.drop_last(), stamp) + event_block(evs.last(), stamp)
    }
}

/// The whole calendar text: header, the calendar name as `X-WR-CALNAME`, one block per event
/// stamped with `stamp`, and the closing line.
pub open spec fn ics_text(name: Seq<char>, evs: Seq<ExportModel>, stamp: DateTime) -> Seq<char> {
    "BEGIN:VCALENDAR"@ + crlf() + "VERSION:2.0"@ + crlf() + "PRODID:-//rili//本地优先日历//ZH"@
        + crlf() + "CALSCALE:GREGORIAN"@ + crlf() + "X-WR-CALNAME:"@ + escape_spec(name) + crlf()
        + event_blocks(evs, stamp) + "END:VCALENDAR"@ + crlf()
}

fn push_crlf(out: &mut Vec<char>)
    ensures
        final(out)@ == old(out)@ + crlf(),
{
    out.push('\r');
    out.push('\n');
    assert(final(out)@ =~= old(out)@ + crlf());
}

fn append_line(out: &mut Vec<char>, prefix: &str, body: &Vec<char>)
    ensures
        final(out)@ == old(out)@ + prefix@ + body@ + crlf(),
{
    append_str(out, prefix);
    append_all(out, body);
    push_crlf(out);
}

fn dtstart_chars(ev: &ExportEvent) -> (r: Vec<char>)
    requires
        ev.date.wf(),
    ensures
        r@ == dtstart_line(ev@),
{
    let d = ev.date.compact_chars();
    match ev.time {
        Some(t) => {
            let (h, m) = match parse_hm(t) {
                Some(x) => x,
                None => (9u32, 0u32),
            };
            let mut out = chars_of("DTSTART:");
            append_all(&mut out, &d);
            append_str(&mut out, "T");
            let hh = crate::text::two_digits_exec(h as u64);
            append_all(&mut out, &hh);
            let mm = crate::text::two_digits_exec(m as u64);
            append_all(&mut out, &mm);
            append_str(&mut out, "00");
            push_crlf(&mut out);
            out
        },
        None => {
            let mut out: Vec<char> = Vec::new();
            append_line(&mut out, "DTSTART;VALUE=DATE:", &d);
            out
        },
    }
}

fn stamp_chars(t: &DateTime) -> (r: Vec<char>)
    requires
        t.wf(),
    ensures
        r@ == stamp_text(*t),
{
    let mut out = t.date.compact_chars();
    append_str(&mut out, "T");
    let hh = crate::text::two_digits_exec(t.hour as u64);
    append_all(&mut out, &hh);
    let mm = crate::text::two_digits_exec(t.minute as u64);
    append_all(&mut out, &mm);
    let ss = crate::text::two_digits_exec(t.second as u64);
    append_all(&mut out, &ss);
    append_str(&mut out, "Z");
    out
}

fn event_block_chars(ev: &ExportEvent, stamp: &Vec<char>, t: Ghost<DateTime>) -> (r: Vec<char>)
    requires
        ev.date.wf(),
        stamp@ == stamp_text(t@),
    ensures
        r@ == event_block(ev@, t@),
{
    let mut out = chars_of("BEGIN:VEVENT");
    push_crlf(&mut out);
    let uid = chars_of(ev.uid.as_str());
    append_line(&mut out, "UID:", &uid);
    append_line(&mut out, "DTSTAMP:", stamp);
    let ds = dtstart_chars(ev);
    append_all(&mut out, &ds);
    match rrule_chars(ev.repeat_rule) {
        Some(x) => append_line(&mut out, "RRULE:", &x),
        None => {},
    }
    let title = chars_of(ev.title);
    let et = escape_chars(&title);
    append_line(&mut out, "SUMMARY:", &et);
    let note = chars_of(ev.note);
    let ghost before_note = out@;
    if note.len() > 0 {
        let en = escape_chars(&note);
        append_line(&mut out, "DESCRIPTION:", &en);
    } else {
        assert(out@ =~= before_note + Seq::<char>::empty());
    }
    append_str(&mut out, "END:VEVENT");
    push_crlf(&mut out);
    assert(out@ =~= event_block(ev@, t@));
    out
}

/// The calendar text for the given UTC time stamp (`DTSTAMP` of every event).
pub fn export_ics_at(calendar_name: &str, events: &[ExportEvent], stamp: &DateTime) -> (r: String)
    requires
        stamp.wf(),
        forall|i: int| 0 <= i < events@.len() ==> (#[trigger] events@[i]).date.wf(),
    ensures
        r@ == ics_text(calendar_name@, export_views(events@), *stamp),
{
    let mut out = chars_of("BEGIN:VCALENDAR");
    push_crlf(&mut out);
    append_str(&mut out, "VERSION:2.0");
    push_crlf(&mut out);
    append_str(&mut out, "PRODID:-//rili//本地优先日历//ZH");
    push_crlf(&mut out);
    append_str(&mut out, "CALSCALE:GREGORIAN");
    push_crlf(&mut out);
    let name = chars_of(calendar_name);
    let en = escape_chars(&name);
    append_line(&mut out, "X-WR-CALNAME:", &en);
    let ghost header = out@;
    let st = stamp_chars(stamp);
    let mut i: usize = 0;
    while i < events.len()
        invariant
            i <= events@.len(),
            st@ == stamp_text(*stamp),
            forall|k: int| 0 <= k < events@.len() ==> (#[trigger] events@[k]).date.wf(),
            out@ == header + event_blocks(export_views(events@).take(i as int), *stamp),
        decreases events@.len() - i,
    {
        let block = event_block_chars(&events[i], &st, Ghost(*stamp));
        append_all(&mut out, &block);
        proof {
            let t = export_views(events@).take(i + 1);
            assert(t.drop_last() =~= export_views(events@).take(i as int));
            assert(t.last() == events@[i as int]@);
        }
        i = i + 1;
    }
    assert(export_views(events@).take(events@.len() as int) =~= export_views(events@));
    append_str(&mut out, "END:VCALENDAR");
    push_crlf(&mut out);
    string_from_chars(&out)
}

/// Writes a whole calendar (`VCALENDAR` with one `VEVENT` per event). `calendar_name` becomes
/// `X-WR-CALNAME`, which most calendar programs show as the name of a subscription. Every
/// event is stamped with the current UTC time, which is why the contract speaks of some valid
/// time stamp.
pub fn export_ics(calendar_name: &str, events: &[ExportEvent]) -> (r: String)
    requires
        forall|i: int| 0 <= i < events@.len() ==> (#[trigger] events@[i]).date.wf(),
    ensures
        exists|stamp: DateTime| #![trigger ics_text(calendar_name@, export_views(events@), stamp)]
            stamp.wf() && r@ == ics_text(calendar_name@, export_views(events@), stamp),
{
    let now = utc_now();
    export_ics_at(calendar_name, events, &now)
}

// ------------------------------------------------------------------
// Export and import agree on repeat rules
// ------------------------------------------------------------------

proof fn lemma_code_round_trip(d: u8)
    requires
        d < 7,
    ensures
        code_weekday(weekday_code_text(d as int)) == Some(d),
        weekday_code_text(d as int).len() == 2,
        !weekday_code_text(d as int).contains(';'),
        !weekday_code_text(d as int).contains(','),
        !weekday_code_text(d as int).contains('='),
        !is_digit(weekday_code_text(d as int)[0]),
        weekday_code_text(d as int)[0] != '-',
{
    reveal_strlit("MO");
    reveal_strlit("TU");
    reveal_strlit("WE");
    reveal_strlit("TH");
    reveal_strlit("FR");
    reveal_strlit("SA");
    reveal_strlit("SU");
    let c = weekday_code_text(d as int);
    assert(c.len() == 2);
    assert(c[0] != c[1] || c[0] == c[1]);
    assert("MO"@[0] == 'M' && "TU"@[0] == 'T' && "WE"@[0] == 'W' && "TH"@[0] == 'T');
    assert("FR"@[0] == 'F' && "SA"@[0] == 'S' && "SU"@[0] == 'S');
    assert("TU"@[1] == 'U' && "TH"@[1] == 'H' && "SA"@[1] == 'A' && "SU"@[1] == 'U');
    if c.contains(';') || c.contains(',') || c.contains('=') {
        let j = choose|j: int| 0 <= j < c.len() && (c[j] == ';' || c[j] == ',' || c[j] == '=');
        assert(j == 0 || j == 1);
    }
}

proof fn lemma_code_list_round_trip(days: Seq<u8>)
    requires
        forall|k: int| 0 <= k < days.len() ==> #[trigger] days[k] < 7,
    ensures
        code_list(weekday_codes(days)) == days,
    decreases days.len(),
{
    if days.len() > 0 {
        let dl = days.drop_last();
        assert(weekday_codes(days).drop_last() =~= weekday_codes(dl));
        assert(days[days.len() - 1] < 7);
        lemma_code_round_trip(days.last());
        lemma_code_list_round_trip(dl);
        assert(dl.push(days.last()) =~= days);
    }
}

/// The fields of a rule text of the form `FREQ=<freq>`.
proof fn lemma_freq_only(freq: Seq<char>)
    requires
        !freq.contains(';'),
    ensures
        rrule_fields(split("FREQ="@ + freq, ';')) == (RruleFields {
            freq: Some(freq),
            byday: None,
            until: None,
            unsupported: false,
        }),
{
    reveal_strlit("FREQ=");
    reveal_strlit("FREQ");
    let t = "FREQ="@ + freq;
    assert(t =~= "FREQ"@ + seq!['='] + freq);
    assert(!"FREQ"@.contains('=')) by {
        if "FREQ"@.contains('=') {
            let j = choose|j: int| 0 <= j < 4 && "FREQ"@[j] == '=';
        }
    }
    assert(!t.contains(';')) by {
        crate::text::lemma_contains_concat("FREQ"@ + seq!['='], freq, ';');
        crate::text::lemma_contains_concat("FREQ"@, seq!['='], ';');
        if "FREQ"@.contains(';') {
            let j = choose|j: int| 0 <= j < 4 && "FREQ"@[j] == ';';
        }
        if seq!['='].contains(';') {
            let j = choose|j: int| 0 <= j < 1 && seq!['='][j] == ';';
        }
    }
    crate::text::lemma_split_single(t, ';');
    crate::text::lemma_split_once_at("FREQ"@, '=', freq);
    assert(seq![t].drop_last() =~= Seq::<Seq<char>>::empty());
    reveal_with_fuel(rrule_fields, 2);
}

/// The fields of a rule text of the form `FREQ=<freq>;BYDAY=<byday>`.
proof fn lemma_freq_byday(freq: Seq<char>, byday: Seq<char>)
    requires
        !freq.contains(';'),
        !byday.contains(';'),
    ensures
        rrule_fields(split("FREQ="@ + freq + ";BYDAY="@ + byday, ';')) == (RruleFields {
            freq: Some(freq),
            byday: Some(byday),
            until: None,
            unsupported: false,
        }),
{
    reveal_strlit("FREQ=");
    reveal_strlit(";BYDAY=");
    reveal_strlit("BYDAY=");
    reveal_strlit("BYDAY");
    reveal_strlit("FREQ");
    let a = "FREQ="@ + freq;
    let b = "BYDAY="@ + byday;
    assert("FREQ="@ + freq + ";BYDAY="@ + byday =~= a + seq![';'] + b);
    assert(!a.contains(';')) by {
        crate::text::lemma_contains_concat("FREQ="@, freq, ';');
        if "FREQ="@.contains(';') {
            let j = choose|j: int| 0 <= j < 5 && "FREQ="@[j] == ';';
        }
    }
    assert(!b.contains(';')) by {
        crate::text::lemma_contains_concat("BYDAY="@, byday, ';');
        if "BYDAY="@.contains(';') {
            let j = choose|j: int| 0 <= j < 6 && "BYDAY="@[j] == ';';
        }
    }
    crate::text::lemma_split_cons(a, ';', b);
    crate::text::lemma_split_single(b, ';');
    let parts = split(a + seq![';'] + b, ';');
    assert(parts =~= seq![a, b]);
    assert(a =~= "FREQ"@ + seq!['='] + freq);
    assert(b =~= "BYDAY"@ + seq!['='] + byday);
    assert(!"FREQ"@.contains('=')) by {
        if "FREQ"@.contains('=') {
            let j = choose|j: int| 0 <= j < 4 && "FREQ"@[j] == '=';
        }
    }
    assert(!"BYDAY"@.contains('=')) by {
        if "BYDAY"@.contains('=') {
            let j = choose|j: int| 0 <= j < 5 && "BYDAY"@[j] == '=';
        }
    }
    crate::text::lemma_split_once_at("FREQ"@, '=', freq);
    crate::text::lemma_split_once_at("BYDAY"@, '=', byday);
    assert(parts.drop_last() =~= seq![a]);
    assert(seq![a].drop_last() =~= Seq::<Seq<char>>::empty());
    assert("BYDAY"@.len() != "FREQ"@.len());
    reveal_with_fuel(rrule_fields, 3);
}

/// Writing a repeat rule as an `RRULE` and reading it back gives the same rule and no end
/// date, for every rule within its documented ranges; only a rule that does not repeat has
/// no `RRULE`.
pub proof fn lemma_rrule_round_trip(r: RuleModel, local: Date)
    requires
        crate::recurrence::rule_wf(r),
    ensures
        rrule_text(r) is None <==> r is NoRepeat,
        rrule_text(r) matches Some(t) ==> rrule_spec(t, local) == (r, None::<Date>),
{
    reveal_strlit("DAILY");
    reveal_strlit("WEEKLY");
    reveal_strlit("MONTHLY");
    reveal_strlit("YEARLY");
    reveal_strlit("FREQ=DAILY");
    reveal_strlit("FREQ=WEEKLY");
    reveal_strlit("FREQ=MONTHLY");
    reveal_strlit("FREQ=YEARLY");
    reveal_strlit("FREQ=WEEKLY;BYDAY=");
    reveal_strlit("FREQ=MONTHLY;BYDAY=");
    reveal_strlit("FREQ=");
    reveal_strlit(";BYDAY=");
    assert("DAILY"@.len() == 5 && "WEEKLY"@.len() == 6 && "MONTHLY"@.len() == 7 && "YEARLY"@.len() == 6);
    assert("DAILY"@ != "WEEKLY"@ && "DAILY"@ != "MONTHLY"@ && "DAILY"@ != "YEARLY"@);
    assert("WEEKLY"@[0] != "YEARLY"@[0]);
    assert("WEEKLY"@ != "MONTHLY"@ && "WEEKLY"@ != "YEARLY"@ && "MONTHLY"@ != "YEARLY"@);
    match r {
        RuleModel::NoRepeat => {},
        RuleModel::Daily => {
            assert("FREQ=DAILY"@ =~= "FREQ="@ + "DAILY"@);
            assert(!"DAILY"@.contains(';')) by {
                if "DAILY"@.contains(';') {
                    let j = choose|j: int| 0 <= j < 5 && "DAILY"@[j] == ';';
                }
            }
            lemma_freq_only("DAILY"@);
        },
        RuleModel::Weekly => {
            assert("FREQ=WEEKLY"@ =~= "FREQ="@ + "WEEKLY"@);
            assert(!"WEEKLY"@.contains(';')) by {
                if "WEEKLY"@.contains(';') {
                    let j = choose|j: int| 0 <= j < 6 && "WEEKLY"@[j] == ';';
                }
            }
            lemma_freq_only("WEEKLY"@);
        },
        RuleModel::Monthly => {
            assert("FREQ=MONTHLY"@ =~= "FREQ="@ + "MONTHLY"@);
            assert(!"MONTHLY"@.contains(';')) by {
                if "MONTHLY"@.contains(';') {
                    let j = choose|j: int| 0 <= j < 7 && "MONTHLY"@[j] == ';';
                }
            }
            lemma_freq_only("MONTHLY"@);
        },
        RuleModel::Yearly => {
            assert("FREQ=YEARLY"@ =~= "FREQ="@ + "YEARLY"@);
            assert(!"YEARLY"@.contains(';')) by {
                if "YEARLY"@.contains(';') {
                    let j = choose|j: int| 0 <= j < 6 && "YEARLY"@[j] == ';';
                }
            }
            lemma_freq_only("YEARLY"@);
        },
        RuleModel::WeeklyOn(days) => {
            let codes = weekday_codes(days);
            reveal_strlit(",");
            assert(","@ =~= seq![',']);
            let j = join(codes, ","@);
            assert forall|k: int| 0 <= k < codes.len() implies !(#[trigger] codes[k]).contains(
                ';',
            ) && !codes[k].contains(',') by {
                lemma_code_round_trip(days[k]);
            }
            assert(!","@.contains(';')) by {
                if ","@.contains(';') {
                    let i = choose|i: int| 0 <= i < 1 && ","@[i] == ';';
                }
            }
            crate::text::lemma_join_lacks(codes, ","@, ';');
            assert("FREQ=WEEKLY;BYDAY="@ + j =~= "FREQ="@ + "WEEKLY"@ + ";BYDAY="@ + j);
            assert(!"WEEKLY"@.contains(';')) by {
                if "WEEKLY"@.contains(';') {
                    let i = choose|i: int| 0 <= i < 6 && "WEEKLY"@[i] == ';';
                }
            }
            lemma_freq_byday("WEEKLY"@, j);
            crate::text::lemma_split_join(codes, ',');
            lemma_code_list_round_trip(days);
        },
        RuleModel::MonthlyNth(n, w) => {
            let code = weekday_code_text(w as int);
            lemma_code_round_trip(w);
            let nd = decimal(n as nat);
            crate::text::lemma_decimal_digits(n as nat);
            crate::text::lemma_parse_decimal(n as nat);
            assert(nd.len() == 1);
            let spec = nd + code;
            assert(!spec.contains(';')) by {
                crate::text::lemma_contains_concat(nd, code, ';');
                if nd.contains(';') {
                    let i = choose|i: int| 0 <= i < 1 && nd[i] == ';';
                    assert(is_digit(nd[0]));
                }
            }
            assert("FREQ=MONTHLY;BYDAY="@ + nd + code =~= "FREQ="@ + "MONTHLY"@ + ";BYDAY="@
                + spec);
            assert(!"MONTHLY"@.contains(';')) by {
                if "MONTHLY"@.contains(';') {
                    let i = choose|i: int| 0 <= i < 7 && "MONTHLY"@[i] == ';';
                }
            }
            lemma_freq_byday("MONTHLY"@, spec);
            assert(is_digit(spec[0]));
            assert(spec[1] == code[0]);
            assert(first_other_from(spec, 1) == 1);
            assert(first_other_from(spec, 0) == 1);
            assert(spec.subrange(0, 1) =~= nd);
            assert(spec.subrange(1, spec.len() as int) =~= code);
            assert(nd[0] != '+');
            assert(parse_u8_spec(nd) == Some(n as int));
        },
    }
}

// ------------------------------------------------------------------
// Export and import agree on texts
// ------------------------------------------------------------------

/// Replacing from the start of `a + b` is replacing in `a` and then in `b`, when no match
/// can reach across: a one-character pattern, or a two-character one that starts with a
/// backslash after an `a` that does not end with one.
proof fn lemma_replace_prefix(a: Seq<char>, b: Seq<char>, p: Seq<char>, r: Seq<char>, i: int)
    requires
        0 <= i <= a.len(),
        1 <= p.len() <= 2,
        p.len() == 2 ==> p[0] == '\\' && (a.len() == 0 || a.last() != '\\'),
    ensures
        crate::text::replace_from(a + b, p, r, i) == crate::text::replace_from(a, p, r, i)
            + crate::text::replace_from(b, p, r, 0),
    decreases a.len() - i,
{
    let ab = a + b;
    if i == a.len() {
        lemma_replace_shift(a, b, p, r, 0);
        assert(crate::text::replace_from(a, p, r, i) == Seq::<char>::empty());
        assert(crate::text::replace_from(a, p, r, i) + crate::text::replace_from(b, p, r, 0) =~= crate::text::replace_from(b, p, r, 0));
    } else {
        if crate::text::match_at(a, p, i) {
            assert(ab.subrange(i, i + p.len()) =~= a.subrange(i, i + p.len()));
            lemma_replace_prefix(a, b, p, r, i + p.len());
            assert(r + (crate::text::replace_from(a, p, r, i + p.len()) + crate::text::replace_from(b, p, r, 0))
                =~= (r + crate::text::replace_from(a, p, r, i + p.len())) + crate::text::replace_from(b, p, r, 0));
        } else {
            if i + p.len() <= a.len() {
                assert(ab.subrange(i, i + p.len()) =~= a.subrange(i, i + p.len()));
            } else if p.len() == 2 {
                assert(i == a.len() - 1);
                assert(ab[i] == a.last());
                if i + p.len() <= ab.len() {
                    assert(ab.subrange(i, i + p.len())[0] == ab[i]);
                }
            }
            assert(!crate::text::match_at(ab, p, i));
            lemma_replace_prefix(a, b, p, r, i + 1);
            assert(ab[i] == a[i]);
            assert(seq![a[i]] + (crate::text::replace_from(a, p, r, i + 1) + crate::text::replace_from(b, p, r, 0))
                =~= (seq![a[i]] + crate::text::replace_from(a, p, r, i + 1)) + crate::text::replace_from(b, p, r, 0));
        }
    }
}

proof fn lemma_replace_shift(a: Seq<char>, b: Seq<char>, p: Seq<char>, r: Seq<char>, j: int)
    requires
        0 <= j,
        p.len() >= 1,
    ensures
        crate::text::replace_from(a + b, p, r, a.len() + j) == crate::text::replace_from(b, p, r, j),
    decreases b.len() - j,
{
    let ab = a + b;
    if j < b.len() {
        let i = a.len() + j;
        if i + p.len() <= ab.len() {
            assert(ab.subrange(i, i + p.len()) =~= b.subrange(j, j + p.len()));
        }
        assert(crate::text::match_at(ab, p, i) == crate::text::match_at(b, p, j));
        assert(ab[i] == b[j]);
        if crate::text::match_at(b, p, j) {
            lemma_replace_shift(a, b, p, r, j + p.len());
        } else {
            lemma_replace_shift(a, b, p, r, j + 1);
        }
    }
}

/// The text with no backslash in it.
pub open spec fn no_backslash(s: Seq<char>) -> bool {
    forall|i: int| 0 <= i < s.len() ==> s[i] != '\\'
}

/// A character as it stands after `k` of the steps from the escaped text back to the
/// plain one: `,` `;` and newline start as a backslash and a letter; the newline comes
/// back first, then `;`, then `,`.
pub open spec fn token(k: int, c: char) -> Seq<char> {
    if c == '\n' && k < 1 {
        seq!['\\', 'n']
    } else if c == ';' && k < 2 {
        seq!['\\', ';']
    } else if c == ',' && k < 3 {
        seq!['\\', ',']
    } else {
        seq![c]
    }
}

pub open spec fn tokens(k: int, s: Seq<char>) -> Seq<char>
    decreases s.len(),
{
    if s.len() == 0 {
        seq![]
    } else {
        tokens(k, s.drop_last()) + token(k, s.last())
    }
}

proof fn lemma_tokens_end(k: int, s: Seq<char>)
    requires
        no_backslash(s),
    ensures
        tokens(k, s).len() == 0 || tokens(k, s).last() != '\\',
        tokens(k, s).len() == 0 <==> s.len() == 0,
{
    if s.len() > 0 {
        assert(s[s.len() - 1] != '\\');
        assert(tokens(k, s).last() == token(k, s.last()).last());
    }
}

proof fn lemma_no_backslash_prefix(s: Seq<char>)
    requires
        no_backslash(s),
        s.len() > 0,
    ensures
        no_backslash(s.drop_last()),
        s.last() != '\\',
{
    assert forall|i: int| 0 <= i < s.drop_last().len() implies s.drop_last()[i] != '\\' by {
        assert(s.drop_last()[i] == s[i]);
    }
}

proof fn lemma_replace_two(t: Seq<char>, p: Seq<char>, r: Seq<char>)
    requires
        t.len() == 2,
        p.len() == 2,
    ensures
        crate::text::replace_from(t, p, r, 0) == (if t == p {
            r
        } else {
            t
        }),
{
    assert(crate::text::replace_from(t, p, r, 2) == Seq::<char>::empty());
    assert(!crate::text::match_at(t, p, 1));
    assert(crate::text::replace_from(t, p, r, 1) =~= seq![t[1]]);
    if t == p {
        assert(t.subrange(0, 2) =~= t);
        assert(crate::text::replace_from(t, p, r, 0) =~= r);
    } else {
        assert(t.subrange(0, 2) =~= t);
        assert(crate::text::replace_from(t, p, r, 0) =~= seq![t[0]] + seq![t[1]]);
        assert(crate::text::replace_from(t, p, r, 0) =~= t);
    }
}

proof fn lemma_unescape_token(k: int, c: char, p: Seq<char>, r: Seq<char>)
    requires
        0 <= k < 3,
        c != '\\',
        p.len() == 2,
        p[0] == '\\',
        k == 0 ==> p[1] == 'n' && r == seq!['\n'],
        k == 1 ==> p[1] == ';' && r == seq![';'],
        k == 2 ==> p[1] == ',' && r == seq![','],
    ensures
        crate::text::replace_from(token(k, c), p, r, 0) == token(k + 1, c),
{
    let t = token(k, c);
    if t.len() == 2 {
        lemma_replace_two(t, p, r);
        if t == p {
            assert(t[1] == p[1]);
        } else {
            if k == 0 {
                assert(c != '\n') by {
                    if c == '\n' {
                        assert(t =~= p);
                    }
                }
            } else if k == 1 {
                assert(c != ';') by {
                    if c == ';' {
                        assert(t =~= p);
                    }
                }
            } else {
                assert(c != ',') by {
                    if c == ',' {
                        assert(t =~= p);
                    }
                }
            }
        }
    } else {
        assert(!crate::text::match_at(t, p, 0));
        assert(crate::text::replace_from(t, p, r, 1) == Seq::<char>::empty());
        assert(crate::text::replace_from(t, p, r, 0) =~= t);
    }
}

/// One step of unescaping turns the tokens of stage `k` into those of stage `k + 1`.
proof fn lemma_unescape_step(k: int, s: Seq<char>, p: Seq<char>, r: Seq<char>)
    requires
        0 <= k < 3,
        no_backslash(s),
        p.len() == 2,
        p[0] == '\\',
        k == 0 ==> p[1] == 'n' && r == seq!['\n'],
        k == 1 ==> p[1] == ';' && r == seq![';'],
        k == 2 ==> p[1] == ',' && r == seq![','],
    ensures
        replace(tokens(k, s), p, r) == tokens(k + 1, s),
    decreases s.len(),
{
    if s.len() > 0 {
        let a = s.drop_last();
        let c = s.last();
        lemma_no_backslash_prefix(s);
        lemma_unescape_step(k, a, p, r);
        lemma_tokens_end(k, a);
        lemma_replace_prefix(tokens(k, a), token(k, c), p, r, 0);
        let t = token(k, c);
        lemma_unescape_token(k, c, p, r);
        assert(crate::text::replace_from(t, p, r, 0) == token(k + 1, c));
        assert(tokens(k, s) == tokens(k, a) + t);
        assert(tokens(k + 1, s) == tokens(k + 1, a) + token(k + 1, c));
    } else {
        assert(tokens(k, s) =~= Seq::<char>::empty());
        assert(crate::text::replace_from(tokens(k, s), p, r, 0) =~= Seq::<char>::empty());
    }
}

proof fn lemma_tokens_plain(s: Seq<char>)
    ensures
        tokens(3, s) == s,
    decreases s.len(),
{
    if s.len() > 0 {
        lemma_tokens_plain(s.drop_last());
        assert(s.drop_last().push(s.last()) =~= s);
    }
}

/// A replacement whose pattern does not occur leaves the text as it is.
proof fn lemma_replace_absent(s: Seq<char>, p: Seq<char>, r: Seq<char>, i: int)
    requires
        0 <= i <= s.len(),
        p.len() >= 1,
        no_backslash(s),
        p[0] == '\\',
    ensures
        crate::text::replace_from(s, p, r, i) == s.subrange(i, s.len() as int),
    decreases s.len() - i,
{
    if i < s.len() {
        assert(!crate::text::match_at(s, p, i)) by {
            if i + p.len() <= s.len() {
                assert(s.subrange(i, i + p.len())[0] == s[i]);
            }
        }
        lemma_replace_absent(s, p, r, i + 1);
        assert(seq![s[i]] + s.subrange(i + 1, s.len() as int) =~= s.subrange(i, s.len() as int));
    } else {
        assert(s.subrange(i, s.len() as int) =~= Seq::<char>::empty());
    }
}

/// One character step of escaping, as a map over the characters.
proof fn lemma_escape_step(s: Seq<char>, c: char, t: Seq<char>, k: int)
    requires
        no_backslash(s),
        0 <= k <= 2,
        c != '\\',
        c == '\n' || c == ';' || c == ',',
        k == 0 ==> c == '\n',
        k == 1 ==> c == ';',
        k == 2 ==> c == ',',
        t == seq!['\\', if c == '\n' { 'n' } else { c }],
    ensures
        replace(tokens(k + 1, s), seq![c], t) == tokens(k, s),
    decreases s.len(),
{
    if s.len() > 0 {
        let a = s.drop_last();
        let d = s.last();
        lemma_no_backslash_prefix(s);
        lemma_escape_step(a, c, t, k);
        lemma_replace_prefix(tokens(k + 1, a), token(k + 1, d), seq![c], t, 0);
        let u = token(k + 1, d);
        if u.len() == 2 {
            assert(u[0] == '\\');
            assert(!crate::text::match_at(u, seq![c], 0)) by {
                assert(u.subrange(0, 1)[0] == u[0]);
            }
            assert(!crate::text::match_at(u, seq![c], 1)) by {
                assert(u.subrange(1, 2)[0] == u[1]);
            }
            assert(crate::text::replace_from(u, seq![c], t, 2) == Seq::<char>::empty());
            assert(crate::text::replace_from(u, seq![c], t, 1) =~= seq![u[1]]);
            assert(crate::text::replace_from(u, seq![c], t, 0) =~= seq![u[0]] + seq![u[1]]);
            assert(crate::text::replace_from(u, seq![c], t, 0) =~= u);
        } else {
            assert(u =~= seq![d]);
            if d == c {
                assert(crate::text::match_at(u, seq![c], 0)) by {
                    assert(u.subrange(0, 1) =~= seq![c]);
                }
                assert(crate::text::replace_from(u, seq![c], t, 1) == Seq::<char>::empty());
                assert(crate::text::replace_from(u, seq![c], t, 0) =~= t);
            } else {
                assert(!crate::text::match_at(u, seq![c], 0)) by {
                    assert(u.subrange(0, 1)[0] == d);
                }
                assert(crate::text::replace_from(u, seq![c], t, 1) == Seq::<char>::empty());
                assert(crate::text::replace_from(u, seq![c], t, 0) =~= u);
            }
        }
    }
}

/// Unescaping an escaped text gives the text back, for every text without a backslash:
/// a title or note exported to a calendar file reads back as it was. (A backslash before
/// `n`, `;` or `,` would read back as the character it stands for.)
pub proof fn lemma_escape_round_trip(s: Seq<char>)
    requires
        no_backslash(s),
    ensures
        unescape_spec(escape_spec(s)) == s,
{
    reveal_strlit("\\");
    reveal_strlit("\\\\");
    reveal_strlit(",");
    reveal_strlit("\\,");
    reveal_strlit(";");
    reveal_strlit("\\;");
    reveal_strlit("\n");
    reveal_strlit("\\n");
    assert("\\,"@ =~= seq!['\\', ',']);
    assert("\\;"@ =~= seq!['\\', ';']);
    assert("\\n"@ =~= seq!['\\', 'n']);
    assert(","@ =~= seq![',']);
    assert(";"@ =~= seq![';']);
    assert("\n"@ =~= seq!['\n']);
    assert("\\"@ =~= seq!['\\']);
    assert("\\\\"@ =~= seq!['\\', '\\']);
    lemma_tokens_plain(s);
    lemma_replace_absent(s, "\\"@, "\\\\"@, 0);
    assert(s.subrange(0, s.len() as int) =~= s);
    lemma_escape_step(s, ',', "\\,"@, 2);
    lemma_escape_step(s, ';', "\\;"@, 1);
    lemma_escape_step(s, '\n', "\\n"@, 0);
    assert(escape_spec(s) == tokens(0, s));
    lemma_unescape_step(0, s, "\\n"@, "\n"@);
    lemma_unescape_step(1, s, "\\;"@, ";"@);
    lemma_unescape_step(2, s, "\\,"@, ","@);
    lemma_replace_absent(tokens(3, s), "\\\\"@, "\\"@, 0);
}


// ------------------------------------------------------------------
// Reading back an exported calendar
// ------------------------------------------------------------------

/// A text without line breaks: no newline and no carriage return.
pub open spec fn unbroken(s: Seq<char>) -> bool {
    !s.contains('\n') && !s.contains('\r')
}

proof fn lemma_unbroken_concat(a: Seq<char>, b: Seq<char>)
    requires
        unbroken(a),
        unbroken(b),
    ensures
        unbroken(a + b),
{
    crate::text::lemma_contains_concat(a, b, '\n');
    crate::text::lemma_contains_concat(a, b, '\r');
}

proof fn lemma_digits_unbroken(s: Seq<char>)
    requires
        all_digits(s),
    ensures
        unbroken(s),
{
    assert forall|i: int| 0 <= i < s.len() implies s[i] != '\n' && s[i] != '\r' by {
        assert(is_digit(s[i]));
    }
}

/// A replacement keeps a character out when neither the text nor the replacement has it.
proof fn lemma_replace_keeps_out(s: Seq<char>, p: Seq<char>, r: Seq<char>, c: char, i: int)
    requires
        0 <= i,
        !s.contains(c),
        !r.contains(c),
    ensures
        !crate::text::replace_from(s, p, r, i).contains(c),
    decreases s.len() - i,
{
    if i < 0 || i >= s.len() {
    } else if p.len() > 0 && crate::text::match_at(s, p, i) {
        lemma_replace_keeps_out(s, p, r, c, i + p.len());
        crate::text::lemma_contains_concat(r, crate::text::replace_from(s, p, r, i + p.len()), c);
    } else {
        lemma_replace_keeps_out(s, p, r, c, i + 1);
        crate::text::lemma_contains_concat(seq![s[i]], crate::text::replace_from(s, p, r, i + 1), c);
        assert(seq![s[i]][0] != c);
    }
}

/// Replacing every occurrence of a character by a text without it clears the character.
proof fn lemma_replace_clears(s: Seq<char>, c: char, r: Seq<char>, i: int)
    requires
        0 <= i,
        !r.contains(c),
    ensures
        !crate::text::replace_from(s, seq![c], r, i).contains(c),
    decreases s.len() - i,
{
    if i < 0 || i >= s.len() {
    } else if crate::text::match_at(s, seq![c], i) {
        lemma_replace_clears(s, c, r, i + 1);
        crate::text::lemma_contains_concat(r, crate::text::replace_from(s, seq![c], r, i + 1), c);
    } else {
        assert(s.subrange(i, i + 1) =~= seq![s[i]]);
        assert(s[i] != c);
        lemma_replace_clears(s, c, r, i + 1);
        crate::text::lemma_contains_concat(seq![s[i]], crate::text::replace_from(s, seq![c], r, i + 1), c);
    }
}

/// An escaped text has no newline, and no carriage return when the text had none.
proof fn lemma_escape_unbroken(s: Seq<char>)
    ensures
        !escape_spec(s).contains('\n'),
        !s.contains('\r') ==> unbroken(escape_spec(s)),
{
    reveal_strlit("\\");
    reveal_strlit("\\\\");
    reveal_strlit(",");
    reveal_strlit("\\,");
    reveal_strlit(";");
    reveal_strlit("\\;");
    reveal_strlit("\n");
    reveal_strlit("\\n");
    let a = replace(s, "\\"@, "\\\\"@);
    let b = replace(a, ","@, "\\,"@);
    let c = replace(b, ";"@, "\\;"@);
    assert("\n"@ =~= seq!['\n']);
    assert(!"\\n"@.contains('\n')) by {
        assert("\\n"@ =~= seq!['\\', 'n']);
    }
    lemma_replace_clears(c, '\n', "\\n"@, 0);
    if !s.contains('\r') {
        assert(!"\\\\"@.contains('\r')) by {
            assert("\\\\"@ =~= seq!['\\', '\\']);
        }
        assert(!"\\,"@.contains('\r')) by {
            assert("\\,"@ =~= seq!['\\', ',']);
        }
        assert(!"\\;"@.contains('\r')) by {
            assert("\\;"@ =~= seq!['\\', ';']);
        }
        assert(!"\\n"@.contains('\r')) by {
            assert("\\n"@ =~= seq!['\\', 'n']);
        }
        lemma_replace_keeps_out(s, "\\"@, "\\\\"@, '\r', 0);
        lemma_replace_keeps_out(a, ","@, "\\,"@, '\r', 0);
        lemma_replace_keeps_out(b, ";"@, "\\;"@, '\r', 0);
        lemma_replace_keeps_out(c, "\n"@, "\\n"@, '\r', 0);
    }
}

/// Without a backslash, unescaping changes nothing.
proof fn lemma_unescape_plain(s: Seq<char>)
    requires
        no_backslash(s),
    ensures
        unescape_spec(s) == s,
{
    reveal_strlit("\\n");
    reveal_strlit("\\;");
    reveal_strlit("\\,");
    reveal_strlit("\\\\");
    assert("\\n"@ =~= seq!['\\', 'n']);
    assert("\\;"@ =~= seq!['\\', ';']);
    assert("\\,"@ =~= seq!['\\', ',']);
    assert("\\\\"@ =~= seq!['\\', '\\']);
    lemma_replace_absent(s, "\\n"@, "\n"@, 0);
    assert(s.subrange(0, s.len() as int) =~= s);
    lemma_replace_absent(s, "\\;"@, ";"@, 0);
    lemma_replace_absent(s, "\\,"@, ","@, 0);
    lemma_replace_absent(s, "\\\\"@, "\\"@, 0);
}

/// `trim_cr` keeps a prefix and removes only carriage returns.
proof fn lemma_trim_cr_facts(s: Seq<char>)
    ensures
        trim_cr(s).len() <= s.len(),
        trim_cr(s) == s.take(trim_cr(s).len() as int),
        forall|j: int| trim_cr(s).len() <= j < s.len() ==> s[j] == '\r',
    decreases s.len(),
{
    if s.len() > 0 && s.last() == '\r' {
        lemma_trim_cr_facts(s.drop_last());
        let t = trim_cr(s.drop_last());
        assert(s.drop_last().take(t.len() as int) =~= s.take(t.len() as int));
        assert forall|j: int| t.len() <= j < s.len() implies s[j] == '\r' by {
            if j < s.len() - 1 {
                assert(s.drop_last()[j] == s[j]);
            }
        }
    } else {
        assert(s.take(s.len() as int) =~= s);
    }
}

proof fn lemma_trim_cr_id(s: Seq<char>)
    requires
        !s.contains('\r'),
    ensures
        trim_cr(s) == s,
{
    lemma_trim_cr_facts(s);
    if trim_cr(s).len() < s.len() {
        assert(s[trim_cr(s).len() as int] == '\r');
    }
}

proof fn lemma_trim_cr_unbroken(s: Seq<char>)
    requires
        !s.contains('\n'),
    ensures
        !trim_cr(s).contains('\n'),
{
    lemma_trim_cr_facts(s);
    let t = trim_cr(s);
    if t.contains('\n') {
        let j = choose|j: int| 0 <= j < t.len() && t[j] == '\n';
        assert(s[j] == t[j]);
    }
}

/// A run of leading zeros does not change the value of digits.
proof fn lemma_leading_zero(s: Seq<char>)
    ensures
        digits_value(seq!['0'] + s) == digits_value(s),
    decreases s.len(),
{
    let t = seq!['0'] + s;
    if s.len() == 0 {
        assert(t.drop_last() =~= Seq::<char>::empty());
        assert(t.last() == '0');
        assert(digits_value(t) == digits_value(t.drop_last()) * 10 + crate::text::digit_value(t.last()));
    } else {
        lemma_leading_zero(s.drop_last());
        assert(t.drop_last() =~= seq!['0'] + s.drop_last());
        assert(t.last() == s.last());
        assert(digits_value(t) == digits_value(t.drop_last()) * 10 + crate::text::digit_value(t.last()));
    }
}

proof fn lemma_decimal_len(n: nat)
    ensures
        n < 10 ==> decimal(n).len() == 1,
        10 <= n < 100 ==> decimal(n).len() == 2,
        100 <= n < 1000 ==> decimal(n).len() == 3,
        1000 <= n < 10000 ==> decimal(n).len() == 4,
    decreases n,
{
    if n >= 10 {
        lemma_decimal_len(n / 10);
    }
}

proof fn lemma_two_digits(n: int)
    requires
        0 <= n < 100,
    ensures
        two_digits(n).len() == 2,
        all_digits(two_digits(n)),
        digits_value(two_digits(n)) == n,
{
    crate::text::lemma_decimal_digits(n as nat);
    lemma_decimal_len(n as nat);
    if n < 10 {
        lemma_leading_zero(decimal(n as nat));
        let t = seq!['0'] + decimal(n as nat);
        assert forall|i: int| 0 <= i < t.len() implies is_digit(#[trigger] t[i]) by {
            if i > 0 {
                assert(t[i] == decimal(n as nat)[i - 1]);
            }
        }
    }
}

proof fn lemma_pad4(n: nat)
    requires
        n <= 9999,
    ensures
        crate::date::pad4(n).len() == 4,
        all_digits(crate::date::pad4(n)),
        digits_value(crate::date::pad4(n)) == n,
{
    crate::text::lemma_decimal_digits(n);
    lemma_decimal_len(n);
    let d = decimal(n);
    let p = crate::date::pad4(n);
    if n < 1000 {
        lemma_leading_zero(d);
        if n < 100 {
            lemma_leading_zero(seq!['0'] + d);
            if n < 10 {
                lemma_leading_zero(seq!['0', '0'] + d);
                assert(seq!['0'] + (seq!['0'] + (seq!['0'] + d)) =~= seq!['0', '0', '0'] + d);
                assert(seq!['0'] + (seq!['0'] + d) =~= seq!['0', '0'] + d);
            } else {
                assert(seq!['0'] + (seq!['0'] + d) =~= seq!['0', '0'] + d);
            }
        }
    }
    assert forall|i: int| 0 <= i < p.len() implies is_digit(#[trigger] p[i]) by {
        if n < 10 {
            if i >= 3 {
                assert(p[i] == d[i - 3]);
            }
        } else if n < 100 {
            if i >= 2 {
                assert(p[i] == d[i - 2]);
            }
        } else if n < 1000 {
            if i >= 1 {
                assert(p[i] == d[i - 1]);
            }
        } else {
            assert(p[i] == d[i]);
        }
    }
}

/// The eight digits of a date with a four-digit year read back as the date.
proof fn lemma_compact_date_back(d: Date)
    requires
        d.wf(),
        1 <= d.year <= 9999,
    ensures
        compact_date_text(d).len() == 8,
        all_digits(compact_date_text(d)),
        compact_date(compact_date_text(d)) == Some(d),
{
    let y = crate::date::pad4(d.year as nat);
    let m = two_digits(d.month as int);
    let dd = two_digits(d.day as int);
    lemma_pad4(d.year as nat);
    lemma_two_digits(d.month as int);
    lemma_two_digits(d.day as int);
    let t = compact_date_text(d);
    assert(t =~= y + m + dd);
    assert(t.subrange(0, 4) =~= y);
    assert(t.subrange(4, 6) =~= m);
    assert(t.subrange(6, 8) =~= dd);
    assert forall|i: int| 0 <= i < t.len() implies is_digit(#[trigger] t[i]) by {
        if i < 4 {
            assert(t[i] == y[i]);
        } else if i < 6 {
            assert(t[i] == m[i - 4]);
        } else {
            assert(t[i] == dd[i - 6]);
        }
    }
}

proof fn lemma_ascii_digits_concat(a: Seq<char>, b: Seq<char>)
    ensures
        ascii_digits(a + b) == ascii_digits(a) + ascii_digits(b),
    decreases b.len(),
{
    if b.len() == 0 {
        assert(a + b =~= a);
        assert(ascii_digits(a) + ascii_digits(b) =~= ascii_digits(a));
    } else {
        lemma_ascii_digits_concat(a, b.drop_last());
        assert((a + b).drop_last() =~= a + b.drop_last());
        assert((a + b).last() == b.last());
        if is_digit(b.last()) {
            assert(ascii_digits(a) + ascii_digits(b) =~= (ascii_digits(a) + ascii_digits(b.drop_last())).push(b.last()));
        } else {
            assert(ascii_digits(a) + ascii_digits(b) =~= ascii_digits(a) + ascii_digits(b.drop_last()));
        }
    }
}

proof fn lemma_ascii_digits_all(s: Seq<char>)
    requires
        all_digits(s),
    ensures
        ascii_digits(s) == s,
    decreases s.len(),
{
    if s.len() > 0 {
        assert(all_digits(s.drop_last())) by {
            assert forall|i: int| 0 <= i < s.drop_last().len() implies is_digit(#[trigger] s.drop_last()[i]) by {
                assert(s.drop_last()[i] == s[i]);
            }
        }
        lemma_ascii_digits_all(s.drop_last());
        assert(is_digit(s[s.len() - 1]));
        assert(s.drop_last().push(s.last()) =~= s);
    }
}


/// Lines each followed by CR LF.
pub open spec fn crlf_join(ls: Seq<Seq<char>>) -> Seq<char>
    decreases ls.len(),
{
    if ls.len() == 0 {
        seq![]
    } else {
        ls[0] + crlf() + crlf_join(ls.drop_first())
    }
}

/// Lines each followed by a newline.
pub open spec fn nl_join(ls: Seq<Seq<char>>) -> Seq<char>
    decreases ls.len(),
{
    if ls.len() == 0 {
        seq![]
    } else {
        ls[0] + seq!['\n'] + nl_join(ls.drop_first())
    }
}

pub open spec fn cr_lines(ls: Seq<Seq<char>>) -> Seq<Seq<char>> {
    Seq::new(ls.len(), |i: int| ls[i].push('\r'))
}

pub open spec fn trimmed_lines(ls: Seq<Seq<char>>) -> Seq<Seq<char>> {
    Seq::new(ls.len(), |i: int| trim_cr(ls[i]))
}

proof fn lemma_crlf_join_append(a: Seq<Seq<char>>, b: Seq<Seq<char>>)
    ensures
        crlf_join(a + b) == crlf_join(a) + crlf_join(b),
    decreases a.len(),
{
    if a.len() == 0 {
        assert(a + b =~= b);
        assert(crlf_join(a) + crlf_join(b) =~= crlf_join(b));
    } else {
        lemma_crlf_join_append(a.drop_first(), b);
        assert((a + b).drop_first() =~= a.drop_first() + b);
        assert((a + b)[0] == a[0]);
        assert(crlf_join(a + b) =~= a[0] + crlf() + (crlf_join(a.drop_first()) + crlf_join(b)));
    }
}

proof fn lemma_crlf_join_one(x: Seq<char>)
    ensures
        crlf_join(seq![x]) == x + crlf(),
{
    assert(seq![x].drop_first() =~= Seq::<Seq<char>>::empty());
    assert(crlf_join(Seq::<Seq<char>>::empty()) == Seq::<char>::empty());
    assert(seq![x][0] == x);
    assert(x + crlf() + Seq::<char>::empty() =~= x + crlf());
}

proof fn lemma_nl_join_push(xs: Seq<Seq<char>>, x: Seq<char>)
    ensures
        nl_join(xs.push(x)) == nl_join(xs) + x + seq!['\n'],
    decreases xs.len(),
{
    if xs.len() == 0 {
        assert(xs.push(x).drop_first() =~= Seq::<Seq<char>>::empty());
        assert(nl_join(Seq::<Seq<char>>::empty()) == Seq::<char>::empty());
        assert(xs.push(x)[0] == x);
        assert(nl_join(xs.push(x)) =~= x + seq!['\n']);
        assert(nl_join(xs) + x + seq!['\n'] =~= x + seq!['\n']);
    } else {
        lemma_nl_join_push(xs.drop_first(), x);
        assert(xs.push(x).drop_first() =~= xs.drop_first().push(x));
        assert(xs.push(x)[0] == xs[0]);
        assert(nl_join(xs.push(x)) =~= xs[0] + seq!['\n'] + (nl_join(xs.drop_first()) + x + seq!['\n']));
    }
}

proof fn lemma_nl_join_len(xs: Seq<Seq<char>>)
    requires
        xs.len() > 0,
    ensures
        nl_join(xs).len() >= xs[0].len() + 1,
{
}

/// Splitting CR LF lines at newlines gives the lines with their carriage return, and an
/// empty piece after the last newline.
proof fn lemma_split_crlf(ls: Seq<Seq<char>>)
    requires
        forall|k: int| 0 <= k < ls.len() ==> !(#[trigger] ls[k]).contains('\n'),
    ensures
        split(crlf_join(ls), '\n') == cr_lines(ls) + seq![Seq::<char>::empty()],
    decreases ls.len(),
{
    if ls.len() == 0 {
        crate::text::lemma_split_single(Seq::<char>::empty(), '\n');
        assert(cr_lines(ls) + seq![Seq::<char>::empty()] =~= seq![Seq::<char>::empty()]);
    } else {
        let rest = ls.drop_first();
        assert forall|k: int| 0 <= k < rest.len() implies !(#[trigger] rest[k]).contains('\n') by {
            assert(rest[k] == ls[k + 1]);
        }
        lemma_split_crlf(rest);
        let a = ls[0].push('\r');
        crate::text::lemma_contains_concat(ls[0], seq!['\r'], '\n');
        assert(ls[0].push('\r') =~= ls[0] + seq!['\r']);
        assert(!a.contains('\n'));
        crate::text::lemma_split_cons(a, '\n', crlf_join(rest));
        assert(crlf_join(ls) =~= a + seq!['\n'] + crlf_join(rest));
        assert(seq![a] + (cr_lines(rest) + seq![Seq::<char>::empty()]) =~= cr_lines(ls) + seq![Seq::<char>::empty()]);
    }
}

/// Splitting newline-terminated lines gives the lines and an empty piece.
proof fn lemma_split_nl(xs: Seq<Seq<char>>)
    requires
        forall|k: int| 0 <= k < xs.len() ==> !(#[trigger] xs[k]).contains('\n'),
    ensures
        split(nl_join(xs), '\n') == xs + seq![Seq::<char>::empty()],
    decreases xs.len(),
{
    if xs.len() == 0 {
        crate::text::lemma_split_single(Seq::<char>::empty(), '\n');
        assert(xs + seq![Seq::<char>::empty()] =~= seq![Seq::<char>::empty()]);
    } else {
        let rest = xs.drop_first();
        assert forall|k: int| 0 <= k < rest.len() implies !(#[trigger] rest[k]).contains('\n') by {
            assert(rest[k] == xs[k + 1]);
        }
        lemma_split_nl(rest);
        crate::text::lemma_split_cons(xs[0], '\n', nl_join(rest));
        assert(seq![xs[0]] + (rest + seq![Seq::<char>::empty()]) =~= xs + seq![Seq::<char>::empty()]);
    }
}

/// Unfolding CR LF lines none of which continues another gives them with newlines.
proof fn lemma_unfold_cr(ls: Seq<Seq<char>>)
    requires
        ls.len() >= 1,
        forall|k: int| 0 <= k < ls.len() ==> trim_cr(#[trigger] ls[k]).len() > 0 && !is_continuation(trim_cr(ls[k])),
    ensures
        unfold_pieces(cr_lines(ls)).push('\n') == nl_join(trimmed_lines(ls)),
    decreases ls.len(),
{
    let p = cr_lines(ls);
    let l = ls.last();
    assert(p.last() == l.push('\r'));
    assert(l.push('\r').drop_last() =~= l);
    assert(trim_cr(l.push('\r')) == trim_cr(l));
    assert(trim_cr(ls[ls.len() - 1]).len() > 0);
    if ls.len() == 1 {
        assert(p.drop_last() =~= Seq::<Seq<char>>::empty());
        assert(trimmed_lines(ls) =~= seq![trim_cr(l)]);
        assert(seq![trim_cr(l)].drop_first() =~= Seq::<Seq<char>>::empty());
        assert(nl_join(Seq::<Seq<char>>::empty()) == Seq::<char>::empty());
        assert(seq![trim_cr(l)][0] == trim_cr(l));
        assert(nl_join(seq![trim_cr(l)]) =~= trim_cr(l) + seq!['\n']);
        assert(unfold_pieces(Seq::<Seq<char>>::empty()) == Seq::<char>::empty());
        assert(unfold_pieces(p) == trim_cr(l));
        assert(trim_cr(l).push('\n') =~= trim_cr(l) + seq!['\n']);
    } else {
        let d = ls.drop_last();
        assert forall|k: int| 0 <= k < d.len() implies trim_cr(#[trigger] d[k]).len() > 0 && !is_continuation(trim_cr(d[k])) by {
            assert(d[k] == ls[k]);
        }
        lemma_unfold_cr(d);
        assert(p.drop_last() =~= cr_lines(d));
        let out = unfold_pieces(cr_lines(d));
        lemma_nl_join_len(trimmed_lines(d));
        assert(trimmed_lines(d)[0] == trim_cr(ls[0]));
        assert(out.len() > 0);
        assert(!is_continuation(trim_cr(ls[ls.len() - 1])));
        assert(unfold_pieces(p) == out.push('\n') + trim_cr(l));
        lemma_nl_join_push(trimmed_lines(d), trim_cr(l));
        assert(trimmed_lines(d).push(trim_cr(l)) =~= trimmed_lines(ls));
        assert((out.push('\n') + trim_cr(l)).push('\n') =~= out.push('\n') + trim_cr(l) + seq!['\n']);
    }
}

/// The lines a calendar written as CR LF lines reads as: the lines without their trailing
/// carriage returns, then an empty line.
proof fn lemma_ics_lines_of(ls: Seq<Seq<char>>)
    requires
        ls.len() >= 1,
        forall|k: int| 0 <= k < ls.len() ==> !(#[trigger] ls[k]).contains('\n'),
        forall|k: int| 0 <= k < ls.len() ==> trim_cr(#[trigger] ls[k]).len() > 0 && !is_continuation(trim_cr(ls[k])),
    ensures
        ics_lines(crlf_join(ls)) == trimmed_lines(ls) + seq![Seq::<char>::empty()],
{
    lemma_split_crlf(ls);
    let pieces = cr_lines(ls) + seq![Seq::<char>::empty()];
    assert(pieces.drop_last() =~= cr_lines(ls));
    lemma_unfold_cr(ls);
    let out = unfold_pieces(cr_lines(ls));
    assert(out.len() > 0) by {
        lemma_nl_join_len(trimmed_lines(ls));
    }
    assert(trim_cr(Seq::<char>::empty()) == Seq::<char>::empty());
    assert(unfold_pieces(pieces) == out.push('\n') + Seq::<char>::empty());
    assert(out.push('\n') + Seq::<char>::empty() =~= out.push('\n'));
    let t = trimmed_lines(ls);
    assert forall|k: int| 0 <= k < t.len() implies !(#[trigger] t[k]).contains('\n') by {
        lemma_trim_cr_unbroken(ls[k]);
    }
    lemma_split_nl(t);
}


/// The start line of an event without its line end (see `dtstart_line`).
pub open spec fn dtstart_body(ev: ExportModel) -> Seq<char> {
    match ev.time {
        Some(t) => {
            let hm: (u32, u32) = match chrono_parse_hm(t) {
                Some(x) => x,
                None => (9u32, 0u32),
            };
            "DTSTART:"@ + compact_date_text(ev.date) + "T"@ + two_digits(hm.0 as int) + two_digits(
                hm.1 as int,
            ) + "00"@
        },
        None => "DTSTART;VALUE=DATE:"@ + compact_date_text(ev.date),
    }
}

pub open spec fn rrule_lines(r: RuleModel) -> Seq<Seq<char>> {
    match rrule_text(r) {
        Some(x) => seq!["RRULE:"@ + x],
        None => seq![],
    }
}

pub open spec fn note_lines(note: Seq<char>) -> Seq<Seq<char>> {
    if note.len() > 0 {
        seq!["DESCRIPTION:"@ + escape_spec(note)]
    } else {
        seq![]
    }
}

/// The lines of one exported event, without line ends.
pub open spec fn block_lines(ev: ExportModel, stamp: DateTime) -> Seq<Seq<char>> {
    seq!["BEGIN:VEVENT"@, "UID:"@ + ev.uid, "DTSTAMP:"@ + stamp_text(stamp), dtstart_body(ev)]
        + rrule_lines(ev.rule) + seq!["SUMMARY:"@ + escape_spec(ev.title)] + note_lines(ev.note)
        + seq!["END:VEVENT"@]
}

pub open spec fn all_blocks(evs: Seq<ExportModel>, stamp: DateTime) -> Seq<Seq<char>>
    decreases evs.len(),
{
    if evs.len() == 0 {
        seq![]
    } else {
        all_blocks(evs.drop_last(), stamp) + block_lines(evs.last(), stamp)
    }
}

pub open spec fn header_lines(name: Seq<char>) -> Seq<Seq<char>> {
    seq![
        "BEGIN:VCALENDAR"@,
        "VERSION:2.0"@,
        "PRODID:-//rili//本地优先日历//ZH"@,
        "CALSCALE:GREGORIAN"@,
        "X-WR-CALNAME:"@ + escape_spec(name),
    ]
}

/// The lines of an exported calendar, without line ends.
pub open spec fn export_lines(name: Seq<char>, evs: Seq<ExportModel>, stamp: DateTime) -> Seq<Seq<char>> {
    header_lines(name) + all_blocks(evs, stamp) + seq!["END:VCALENDAR"@]
}

proof fn lemma_crlf_join_two(a: Seq<Seq<char>>, x: Seq<char>)
    ensures
        crlf_join(a + seq![x]) == crlf_join(a) + x + crlf(),
{
    lemma_crlf_join_append(a, seq![x]);
    lemma_crlf_join_one(x);
    assert(crlf_join(a) + (x + crlf()) =~= crlf_join(a) + x + crlf());
}

proof fn lemma_crlf_join_four(x0: Seq<char>, x1: Seq<char>, x2: Seq<char>, x3: Seq<char>)
    ensures
        crlf_join(seq![x0, x1, x2, x3]) == x0 + crlf() + x1 + crlf() + x2 + crlf() + x3 + crlf(),
{
    let e = Seq::<Seq<char>>::empty();
    assert(crlf_join(e) == Seq::<char>::empty());
    lemma_crlf_join_two(e, x0);
    lemma_crlf_join_two(e + seq![x0], x1);
    lemma_crlf_join_two(e + seq![x0] + seq![x1], x2);
    lemma_crlf_join_two(e + seq![x0] + seq![x1] + seq![x2], x3);
    assert(e + seq![x0] + seq![x1] + seq![x2] + seq![x3] =~= seq![x0, x1, x2, x3]);
    assert(Seq::<char>::empty() + x0 + crlf() =~= x0 + crlf());
}

proof fn lemma_event_block_lines(ev: ExportModel, stamp: DateTime)
    ensures
        event_block(ev, stamp) == crlf_join(block_lines(ev, stamp)),
{
    let a = seq!["BEGIN:VEVENT"@, "UID:"@ + ev.uid, "DTSTAMP:"@ + stamp_text(stamp), dtstart_body(ev)];
    let r = rrule_lines(ev.rule);
    let sm = seq!["SUMMARY:"@ + escape_spec(ev.title)];
    let n = note_lines(ev.note);
    let e = seq!["END:VEVENT"@];
    assert(block_lines(ev, stamp) == a + r + sm + n + e);
    lemma_crlf_join_four(a[0], a[1], a[2], a[3]);
    assert(seq![a[0], a[1], a[2], a[3]] =~= a);
    lemma_crlf_join_append(a, r);
    lemma_crlf_join_append(a + r, sm);
    lemma_crlf_join_append(a + r + sm, n);
    lemma_crlf_join_append(a + r + sm + n, e);
    lemma_crlf_join_one(sm[0]);
    lemma_crlf_join_one(e[0]);
    assert(rrule_line(ev.rule) == crlf_join(r)) by {
        match rrule_text(ev.rule) {
            Some(x) => {
                lemma_crlf_join_one(r[0]);
            },
            None => {
                assert(r =~= Seq::<Seq<char>>::empty());
            },
        }
    }
    let desc = if ev.note.len() > 0 {
        "DESCRIPTION:"@ + escape_spec(ev.note) + crlf()
    } else {
        seq![]
    };
    assert(desc == crlf_join(n)) by {
        if ev.note.len() > 0 {
            lemma_crlf_join_one(n[0]);
        } else {
            assert(n =~= Seq::<Seq<char>>::empty());
        }
    }
    assert(dtstart_line(ev) =~= dtstart_body(ev) + crlf());
    let front = "BEGIN:VEVENT"@ + crlf() + "UID:"@ + ev.uid + crlf() + "DTSTAMP:"@ + stamp_text(stamp) + crlf() + dtstart_line(ev);
    assert(front =~= crlf_join(a));
    assert(event_block(ev, stamp) =~= front + rrule_line(ev.rule) + ("SUMMARY:"@ + escape_spec(ev.title) + crlf()) + desc + ("END:VEVENT"@ + crlf()));
}

proof fn lemma_event_blocks_lines(evs: Seq<ExportModel>, stamp: DateTime)
    ensures
        event_blocks(evs, stamp) == crlf_join(all_blocks(evs, stamp)),
    decreases evs.len(),
{
    if evs.len() == 0 {
        assert(crlf_join(Seq::<Seq<char>>::empty()) == Seq::<char>::empty());
    } else {
        lemma_event_blocks_lines(evs.drop_last(), stamp);
        lemma_event_block_lines(evs.last(), stamp);
        lemma_crlf_join_append(all_blocks(evs.drop_last(), stamp), block_lines(evs.last(), stamp));
    }
}

proof fn lemma_ics_text_lines(name: Seq<char>, evs: Seq<ExportModel>, stamp: DateTime)
    ensures
        ics_text(name, evs, stamp) == crlf_join(export_lines(name, evs, stamp)),
{
    let h = header_lines(name);
    lemma_event_blocks_lines(evs, stamp);
    lemma_crlf_join_append(h + all_blocks(evs, stamp), seq!["END:VCALENDAR"@]);
    lemma_crlf_join_append(h, all_blocks(evs, stamp));
    lemma_crlf_join_one("END:VCALENDAR"@);
    lemma_crlf_join_four(h[0], h[1], h[2], h[3]);
    lemma_crlf_join_two(seq![h[0], h[1], h[2], h[3]], h[4]);
    assert(seq![h[0], h[1], h[2], h[3]] + seq![h[4]] =~= h);
    assert(ics_text(name, evs, stamp) =~= crlf_join(h) + crlf_join(all_blocks(evs, stamp)) + crlf_join(seq!["END:VCALENDAR"@]));
}



/// An event in the subset that reads back as written: an id without backslash or line
/// break, a title and a note without backslash or carriage return, a day with a four-digit
/// year, a rule the rules can hold, and a time that chrono reads as the `HH:MM` it is.
pub open spec fn exports_cleanly(ev: ExportModel) -> bool {
    &&& no_backslash(ev.uid) && unbroken(ev.uid)
    &&& no_backslash(ev.title) && !ev.title.contains('\r')
    &&& no_backslash(ev.note) && !ev.note.contains('\r')
    &&& ev.date.wf() && 1 <= ev.date.year <= 9999
    &&& crate::recurrence::rule_wf(ev.rule)
    &&& (ev.time matches Some(t) ==> (chrono_parse_hm(t) matches Some(hm) && hm.0 < 24 && hm.1 < 60
        && hm_text(hm.0 as int, hm.1 as int) == t))
}

/// What reading an exported event gives back: its id, title, day, time, note and rule, no
/// place or link, the default length of an hour and no end of series; cancelled when its
/// title reads as cancelled.
pub open spec fn read_back(ev: ExportModel) -> EventModel {
    EventModel {
        uid: ev.uid,
        title: ev.title,
        date: ev.date,
        time: ev.time,
        note: ev.note,
        location: seq![],
        url: seq![],
        duration: 60,
        rule: ev.rule,
        until: None,
        cancelled: marks_cancelled(ev.title),
    }
}

proof fn lemma_weekday_code_unbroken(w: int)
    ensures
        unbroken(weekday_code_text(w)),
{
    reveal_strlit("MO");
    reveal_strlit("TU");
    reveal_strlit("WE");
    reveal_strlit("TH");
    reveal_strlit("FR");
    reveal_strlit("SA");
    reveal_strlit("SU");
}

proof fn lemma_rrule_unbroken(r: RuleModel)
    ensures
        rrule_text(r) matches Some(x) ==> unbroken(x),
{
    reveal_strlit("FREQ=DAILY");
    reveal_strlit("FREQ=WEEKLY");
    reveal_strlit("FREQ=MONTHLY");
    reveal_strlit("FREQ=YEARLY");
    reveal_strlit("FREQ=WEEKLY;BYDAY=");
    reveal_strlit("FREQ=MONTHLY;BYDAY=");
    reveal_strlit(",");
    match r {
        RuleModel::WeeklyOn(days) => {
            let codes = weekday_codes(days);
            assert forall|k: int| 0 <= k < codes.len() implies !(#[trigger] codes[k]).contains('\n') by {
                lemma_weekday_code_unbroken(days[k] as int);
            }
            assert forall|k: int| 0 <= k < codes.len() implies !(#[trigger] codes[k]).contains('\r') by {
                lemma_weekday_code_unbroken(days[k] as int);
            }
            crate::text::lemma_join_lacks(codes, ","@, '\n');
            crate::text::lemma_join_lacks(codes, ","@, '\r');
            lemma_unbroken_concat("FREQ=WEEKLY;BYDAY="@, join(codes, ","@));
        },
        RuleModel::MonthlyNth(n, w) => {
            crate::text::lemma_decimal_digits(n as nat);
            lemma_digits_unbroken(decimal(n as nat));
            lemma_weekday_code_unbroken(w as int);
            lemma_unbroken_concat("FREQ=MONTHLY;BYDAY="@, decimal(n as nat));
            lemma_unbroken_concat("FREQ=MONTHLY;BYDAY="@ + decimal(n as nat), weekday_code_text(w as int));
        },
        _ => {},
    }
}

proof fn lemma_two_digits_unbroken(n: nat)
    ensures
        unbroken(two_digits(n as int)),
{
    crate::text::lemma_decimal_digits(n);
    lemma_digits_unbroken(decimal(n));
    if n < 10 {
        lemma_unbroken_concat(seq!['0'], decimal(n));
    }
}

proof fn lemma_year_text_unbroken(y: int)
    ensures
        unbroken(year_text(y)),
{
    let m: nat = if y < 0 {
        (-y) as nat
    } else {
        y as nat
    };
    crate::text::lemma_decimal_digits(m);
    lemma_digits_unbroken(decimal(m));
    lemma_unbroken_concat(seq!['0', '0', '0'], decimal(m));
    lemma_unbroken_concat(seq!['0', '0'], decimal(m));
    lemma_unbroken_concat(seq!['0'], decimal(m));
    let p = crate::date::pad4(m);
    assert(unbroken(p));
    lemma_unbroken_concat(seq!['-'], p);
    lemma_unbroken_concat(seq!['+'], p);
}

proof fn lemma_stamp_unbroken(t: DateTime)
    ensures
        unbroken(stamp_text(t)),
{
    reveal_strlit("T");
    reveal_strlit("Z");
    lemma_year_text_unbroken(t.date.year as int);
    lemma_two_digits_unbroken(t.date.month as nat);
    lemma_two_digits_unbroken(t.date.day as nat);
    lemma_two_digits_unbroken(t.hour as nat);
    lemma_two_digits_unbroken(t.minute as nat);
    lemma_two_digits_unbroken(t.second as nat);
    let y = year_text(t.date.year as int);
    let a = y + two_digits(t.date.month as int);
    lemma_unbroken_concat(y, two_digits(t.date.month as int));
    lemma_unbroken_concat(a, two_digits(t.date.day as int));
    let b = compact_date_text(t.date);
    assert(b == a + two_digits(t.date.day as int));
    lemma_unbroken_concat(b, "T"@);
    lemma_unbroken_concat(b + "T"@, two_digits(t.hour as int));
    lemma_unbroken_concat(b + "T"@ + two_digits(t.hour as int), two_digits(t.minute as int));
    lemma_unbroken_concat(b + "T"@ + two_digits(t.hour as int) + two_digits(t.minute as int), two_digits(t.second as int));
    lemma_unbroken_concat(b + "T"@ + two_digits(t.hour as int) + two_digits(t.minute as int) + two_digits(t.second as int), "Z"@);
}

/// The `DTSTART` value an exported event is written with reads back as its day and time.
proof fn lemma_dtstart_back(ev: ExportModel, c: DateTime)
    requires
        exports_cleanly(ev),
    ensures
        ({
            let cd = compact_date_text(ev.date);
            match ev.time {
                Some(t) => {
                    let hm = chrono_parse_hm(t)->0;
                    let v = cd + "T"@ + two_digits(hm.0 as int) + two_digits(hm.1 as int) + "00"@;
                    &&& unbroken(v)
                    &&& ics_datetime_spec(v, c) == Some((ev.date, Some(t), Some(DateTime { date: ev.date, hour: hm.0, minute: hm.1, second: 0 })))
                },
                None => {
                    &&& unbroken(cd)
                    &&& ics_datetime_spec(cd, c) == Some((ev.date, None::<Seq<char>>, None::<DateTime>))
                },
            }
        }),
{
    reveal_strlit("T");
    reveal_strlit("00");
    reveal_strlit("Z");
    let cd = compact_date_text(ev.date);
    lemma_compact_date_back(ev.date);
    lemma_digits_unbroken(cd);
    lemma_ascii_digits_all(cd);
    match ev.time {
        Some(t) => {
            let hm = chrono_parse_hm(t)->0;
            let h2 = two_digits(hm.0 as int);
            let m2 = two_digits(hm.1 as int);
            lemma_two_digits(hm.0 as int);
            lemma_two_digits(hm.1 as int);
            let z = "00"@;
            assert(z =~= seq!['0', '0']);
            assert(all_digits(z));
            let v = cd + "T"@ + h2 + m2 + z;
            lemma_digits_unbroken(h2);
            lemma_digits_unbroken(m2);
            lemma_digits_unbroken(z);
            lemma_unbroken_concat(cd, "T"@);
            lemma_unbroken_concat(cd + "T"@, h2);
            lemma_unbroken_concat(cd + "T"@ + h2, m2);
            lemma_unbroken_concat(cd + "T"@ + h2 + m2, z);
            lemma_ascii_digits_all(h2);
            lemma_ascii_digits_all(m2);
            lemma_ascii_digits_all(z);
            assert(ascii_digits("T"@) =~= Seq::<char>::empty()) by {
                assert("T"@ =~= seq!['T']);
                assert("T"@.drop_last() =~= Seq::<char>::empty());
                assert(ascii_digits(Seq::<char>::empty()) == Seq::<char>::empty());
                assert(!is_digit('T'));
            }
            lemma_ascii_digits_concat(cd, "T"@);
            lemma_ascii_digits_concat(cd + "T"@, h2);
            lemma_ascii_digits_concat(cd + "T"@ + h2, m2);
            lemma_ascii_digits_concat(cd + "T"@ + h2 + m2, z);
            let dg = cd + h2 + m2 + z;
            assert(ascii_digits(v) =~= dg);
            assert(dg.len() == 14);
            assert(value_digits(v) == dg);
            assert(dg.subrange(0, 8) =~= cd);
            assert(dg.subrange(8, 10) =~= h2);
            assert(dg.subrange(10, 12) =~= m2);
            assert(crate::text::match_at(v, "T"@, 8)) by {
                assert(v.subrange(8, 9) =~= "T"@);
            }
            crate::text::lemma_find_from_bounds(v, "T"@, 0);
            assert(contains(v, "T"@));
            assert(field(dg, 8, 10) == hm.0 as int);
            assert(field(dg, 10, 12) == hm.1 as int);
            assert(compact_date(dg.subrange(0, 8)) == Some(ev.date));
            assert(hm_text(hm.0 as int, hm.1 as int) == t);
            assert(!ends_with(v, "Z"@)) by {
                assert(v[v.len() - 1] == '0');
                if ends_with(v, "Z"@) {
                    assert(v.subrange(v.len() - 1, v.len() as int)[0] == v[v.len() - 1]);
                }
            }
            let start = DateTime { date: ev.date, hour: hm.0, minute: hm.1, second: 0 };
            assert(unbroken(v));
            assert(value_digits(v).len() >= 8);
            assert(ics_datetime_spec(v, c) == Some((start.date, Some(hm_text(start.hour as int, start.minute as int)), Some(start))));
            assert(hm_text(start.hour as int, start.minute as int) == t);
            assert(ics_datetime_spec(v, c) == Some((ev.date, Some(t), Some(DateTime { date: ev.date, hour: hm.0, minute: hm.1, second: 0 }))));
            assert(ev.time == Some(t));
        },
        None => {
            assert(value_digits(cd) == cd);
            assert(cd.subrange(0, 8) =~= cd);
            assert(compact_date(cd.subrange(0, 8)) == Some(ev.date));
        },
    }
}


proof fn lemma_key_of_plain(k: Seq<char>)
    requires
        !k.contains(';'),
    ensures
        key_of(k) == k,
{
    crate::text::lemma_char_from_bounds(k, ';', 0);
}

/// A property line inside an event sets the property its name names.
proof fn lemma_prop_step(st: IcsState, k: Seq<char>, v: Seq<char>, c: DateTime)
    requires
        st.in_event,
        k.len() > 0,
        k[0] != 'B',
        k[0] != 'E',
        !k.contains(':'),
        !(k + seq![':'] + v).contains('\r'),
    ensures
        ics_step(st, k + seq![':'] + v, c) == field_step(st, key_of(k), v, c),
{
    reveal_strlit("BEGIN:VEVENT");
    reveal_strlit("END:VEVENT");
    let l = k + seq![':'] + v;
    lemma_trim_cr_id(l);
    assert(l[0] == k[0]);
    assert(l != "BEGIN:VEVENT"@) by {
        assert("BEGIN:VEVENT"@[0] == 'B');
    }
    assert(l != "END:VEVENT"@) by {
        assert("END:VEVENT"@[0] == 'E');
    }
    crate::text::lemma_split_once_at(k, ':', v);
}

/// A line outside an event that neither starts nor ends one changes nothing.
proof fn lemma_quiet_step(st: IcsState, l: Seq<char>, c: DateTime)
    requires
        !st.in_event,
        trim_cr(l) != "BEGIN:VEVENT"@,
    ensures
        ics_step(st, l, c).in_event == false,
        ics_step(st, l, c).events == st.events,
{
}


proof fn lemma_begin_step(st: IcsState, c: DateTime)
    ensures
        ics_step(st, "BEGIN:VEVENT"@, c) == cleared_state(true, st.events),
{
    reveal_strlit("BEGIN:VEVENT");
    lemma_trim_cr_id("BEGIN:VEVENT"@);
}

proof fn lemma_uid_step(st: IcsState, uid: Seq<char>, c: DateTime)
    requires
        st.in_event,
        no_backslash(uid),
        unbroken(uid),
    ensures
        ics_step(st, "UID:"@ + uid, c) == (IcsState { uid, ..st }),
        unbroken("UID:"@ + uid),
{
    reveal_strlit("UID:");
    reveal_strlit("UID");
    assert("UID:"@ + uid =~= "UID"@ + seq![':'] + uid);
    lemma_unbroken_concat("UID:"@, uid);
    lemma_prop_step(st, "UID"@, uid, c);
    lemma_key_of_plain("UID"@);
    lemma_unescape_plain(uid);
}

proof fn lemma_stamp_step(st: IcsState, stamp: DateTime, c: DateTime)
    requires
        st.in_event,
    ensures
        ics_step(st, "DTSTAMP:"@ + stamp_text(stamp), c) == st,
        unbroken("DTSTAMP:"@ + stamp_text(stamp)),
{
    reveal_strlit("DTSTAMP:");
    reveal_strlit("DTSTAMP");
    reveal_strlit("UID");
    reveal_strlit("SUMMARY");
    reveal_strlit("DESCRIPTION");
    reveal_strlit("LOCATION");
    reveal_strlit("URL");
    reveal_strlit("DURATION");
    reveal_strlit("RRULE");
    reveal_strlit("STATUS");
    reveal_strlit("DTSTART");
    reveal_strlit("DTEND");
    let v = stamp_text(stamp);
    assert("DTSTAMP:"@ + v =~= "DTSTAMP"@ + seq![':'] + v);
    lemma_stamp_unbroken(stamp);
    lemma_unbroken_concat("DTSTAMP:"@, v);
    lemma_prop_step(st, "DTSTAMP"@, v, c);
    lemma_key_of_plain("DTSTAMP"@);
    assert("DTSTAMP"@ != "SUMMARY"@) by {
        assert("DTSTAMP"@[0] != "SUMMARY"@[0]);
    }
    assert("DTSTAMP"@ != "DTSTART"@) by {
        assert("DTSTAMP"@[6] != "DTSTART"@[6]);
    }
}

/// A `DTSTART` property sets the day, time and start that its value reads as.
proof fn lemma_field_dtstart(st: IcsState, v: Seq<char>, c: DateTime)
    ensures
        field_step(st, "DTSTART"@, v, c) == (match ics_datetime_spec(v, c) {
            Some((d, t, s)) => IcsState { date: Some(d), time: t, start: s, ..st },
            None => st,
        }),
{
    reveal_strlit("DTSTART");
    reveal_strlit("UID");
    reveal_strlit("SUMMARY");
    reveal_strlit("DESCRIPTION");
    reveal_strlit("LOCATION");
    reveal_strlit("URL");
    reveal_strlit("DURATION");
    reveal_strlit("RRULE");
    reveal_strlit("STATUS");
    let k = "DTSTART"@;
    assert(k != "UID"@ && k != "URL"@) by {
        assert(k.len() != 3);
    }
    assert(k != "SUMMARY"@) by {
        assert(k[0] != "SUMMARY"@[0]);
    }
    assert(k != "DESCRIPTION"@) by {
        assert(k.len() != "DESCRIPTION"@.len());
    }
    assert(k != "LOCATION"@ && k != "DURATION"@) by {
        assert(k.len() != 8);
    }
    assert(k != "RRULE"@) by {
        assert(k.len() != 5);
    }
    assert(k != "STATUS"@) by {
        assert(k.len() != 6);
    }
}

#[verifier::rlimit(30)]
proof fn lemma_dtstart_step(st: IcsState, ev: ExportModel, c: DateTime)
    requires
        st.in_event,
        exports_cleanly(ev),
    ensures
        unbroken(dtstart_body(ev)),
        ics_step(st, dtstart_body(ev), c) == (IcsState {
            date: Some(ev.date),
            time: ev.time,
            start: ics_step(st, dtstart_body(ev), c).start,
            ..st
        }),
{
    reveal_strlit("DTSTART:");
    reveal_strlit("DTSTART");
    reveal_strlit("DTSTART;VALUE=DATE:");
    reveal_strlit("DTSTART;VALUE=DATE");
    reveal_strlit("VALUE=DATE");
    lemma_dtstart_back(ev, c);
    let cd = compact_date_text(ev.date);
    match ev.time {
        Some(t) => {
            let hm = chrono_parse_hm(t)->0;
            let v = cd + "T"@ + two_digits(hm.0 as int) + two_digits(hm.1 as int) + "00"@;
            assert(dtstart_body(ev) =~= "DTSTART"@ + seq![':'] + v);
            lemma_unbroken_concat("DTSTART:"@, v);
            assert("DTSTART:"@ + v =~= "DTSTART"@ + seq![':'] + v);
            lemma_prop_step(st, "DTSTART"@, v, c);
            lemma_key_of_plain("DTSTART"@);
            lemma_field_dtstart(st, v, c);
        },
        None => {
            assert(dtstart_body(ev) =~= "DTSTART;VALUE=DATE"@ + seq![':'] + cd);
            lemma_unbroken_concat("DTSTART;VALUE=DATE:"@, cd);
            assert("DTSTART;VALUE=DATE:"@ + cd =~= "DTSTART;VALUE=DATE"@ + seq![':'] + cd);
            lemma_prop_step(st, "DTSTART;VALUE=DATE"@, cd, c);
            assert("DTSTART;VALUE=DATE"@ =~= "DTSTART"@ + seq![';'] + "VALUE=DATE"@);
            crate::text::lemma_split_once_at("DTSTART"@, ';', "VALUE=DATE"@);
            assert(key_of("DTSTART;VALUE=DATE"@) == "DTSTART"@);
            lemma_field_dtstart(st, cd, c);
        },
    }
}

proof fn lemma_rrule_step(st: IcsState, r: RuleModel, x: Seq<char>, c: DateTime)
    requires
        st.in_event,
        crate::recurrence::rule_wf(r),
        rrule_text(r) == Some(x),
    ensures
        unbroken("RRULE:"@ + x),
        ics_step(st, "RRULE:"@ + x, c) == (IcsState { rule: r, until: None, ..st }),
{
    reveal_strlit("RRULE:");
    reveal_strlit("RRULE");
    reveal_strlit("UID");
    reveal_strlit("SUMMARY");
    reveal_strlit("DESCRIPTION");
    reveal_strlit("LOCATION");
    reveal_strlit("URL");
    reveal_strlit("DURATION");
    lemma_rrule_round_trip(r, c.date);
    lemma_rrule_unbroken(r);
    lemma_unbroken_concat("RRULE:"@, x);
    assert("RRULE:"@ + x =~= "RRULE"@ + seq![':'] + x);
    lemma_prop_step(st, "RRULE"@, x, c);
    lemma_key_of_plain("RRULE"@);
}

proof fn lemma_summary_step(st: IcsState, title: Seq<char>, c: DateTime)
    requires
        st.in_event,
        no_backslash(title),
        !title.contains('\r'),
    ensures
        unbroken("SUMMARY:"@ + escape_spec(title)),
        ics_step(st, "SUMMARY:"@ + escape_spec(title), c) == (IcsState { summary: title, ..st }),
{
    reveal_strlit("SUMMARY:");
    reveal_strlit("SUMMARY");
    reveal_strlit("UID");
    let v = escape_spec(title);
    lemma_escape_unbroken(title);
    lemma_unbroken_concat("SUMMARY:"@, v);
    assert("SUMMARY:"@ + v =~= "SUMMARY"@ + seq![':'] + v);
    lemma_prop_step(st, "SUMMARY"@, v, c);
    lemma_key_of_plain("SUMMARY"@);
    lemma_escape_round_trip(title);
}

proof fn lemma_note_step(st: IcsState, note: Seq<char>, c: DateTime)
    requires
        st.in_event,
        no_backslash(note),
        !note.contains('\r'),
    ensures
        unbroken("DESCRIPTION:"@ + escape_spec(note)),
        ics_step(st, "DESCRIPTION:"@ + escape_spec(note), c) == (IcsState { note, ..st }),
{
    reveal_strlit("DESCRIPTION:");
    reveal_strlit("DESCRIPTION");
    reveal_strlit("UID");
    reveal_strlit("SUMMARY");
    let v = escape_spec(note);
    lemma_escape_unbroken(note);
    lemma_unbroken_concat("DESCRIPTION:"@, v);
    assert("DESCRIPTION:"@ + v =~= "DESCRIPTION"@ + seq![':'] + v);
    lemma_prop_step(st, "DESCRIPTION"@, v, c);
    lemma_key_of_plain("DESCRIPTION"@);
    lemma_escape_round_trip(note);
}

proof fn lemma_end_step(st: IcsState, c: DateTime)
    requires
        st.in_event,
        st.date is Some,
    ensures
        ics_step(st, "END:VEVENT"@, c) == (IcsState {
            in_event: false,
            events: st.events.push(finished_event(st, st.date->0)),
            ..st
        }),
{
    reveal_strlit("END:VEVENT");
    reveal_strlit("BEGIN:VEVENT");
    lemma_trim_cr_id("END:VEVENT"@);
    assert("END:VEVENT"@ != "BEGIN:VEVENT"@) by {
        assert("END:VEVENT"@[0] != "BEGIN:VEVENT"@[0]);
    }
}

proof fn lemma_fold_next(lines: Seq<Seq<char>>, convs: Seq<DateTime>, m: int)
    requires
        0 <= m,
    ensures
        ics_fold(lines, convs, m + 1) == ics_step(ics_fold(lines, convs, m), lines[m], convs[m]),
{
}

/// The lines of one exported event, read in place, add that event and leave the reader
/// outside an event.
#[verifier::rlimit(40)]
#[verifier::spinoff_prover]
proof fn lemma_block_fold(lines: Seq<Seq<char>>, convs: Seq<DateTime>, a: int, ev: ExportModel, stamp: DateTime)
    requires
        0 <= a,
        a + block_lines(ev, stamp).len() <= lines.len(),
        forall|k: int| 0 <= k < block_lines(ev, stamp).len() ==> lines[a + k] == #[trigger] block_lines(ev, stamp)[k],
        exports_cleanly(ev),
    ensures
        !ics_fold(lines, convs, a + block_lines(ev, stamp).len()).in_event,
        ics_fold(lines, convs, a + block_lines(ev, stamp).len()).events == ics_fold(lines, convs, a).events.push(
            read_back(ev),
        ),
{
    let bl = block_lines(ev, stamp);
    let rl = rrule_lines(ev.rule);
    let nl = note_lines(ev.note);
    let r = rl.len() as int;
    let nn = nl.len() as int;
    let head = seq!["BEGIN:VEVENT"@, "UID:"@ + ev.uid, "DTSTAMP:"@ + stamp_text(stamp), dtstart_body(ev)];
    assert(bl == head + rl + seq!["SUMMARY:"@ + escape_spec(ev.title)] + nl + seq!["END:VEVENT"@]);
    assert(r <= 1 && nn <= 1);
    assert(bl.len() == 6 + r + nn);
    let e0 = ics_fold(lines, convs, a).events;
    let s1 = cleared_state(true, e0);
    assert(ics_fold(lines, convs, a + 1) == s1) by {
        lemma_fold_next(lines, convs, a);
        assert(lines[a + 0] == bl[0]);
        assert(a + 0 == a);
        lemma_begin_step(ics_fold(lines, convs, a), convs[a]);
    }
    let s2 = IcsState { uid: ev.uid, ..s1 };
    assert(ics_fold(lines, convs, a + 2) == s2) by {
        lemma_fold_next(lines, convs, a + 1);
        assert(lines[a + 1] == bl[1]);
        lemma_uid_step(s1, ev.uid, convs[a + 1]);
    }
    assert(ics_fold(lines, convs, a + 3) == s2) by {
        lemma_fold_next(lines, convs, a + 2);
        assert(lines[a + 2] == bl[2]);
        lemma_stamp_step(s2, stamp, convs[a + 2]);
    }
    let s4 = ics_step(s2, dtstart_body(ev), convs[a + 3]);
    assert(ics_fold(lines, convs, a + 4) == s4 && s4 == (IcsState {
        date: Some(ev.date),
        time: ev.time,
        start: s4.start,
        ..s2
    })) by {
        lemma_fold_next(lines, convs, a + 3);
        assert(lines[a + 3] == bl[3]);
        lemma_dtstart_step(s2, ev, convs[a + 3]);
    }
    let s5 = IcsState { rule: ev.rule, until: None, ..s4 };
    assert(ics_fold(lines, convs, a + 4 + r) == s5) by {
        match rrule_text(ev.rule) {
            Some(x) => {
                assert(rl == seq!["RRULE:"@ + x]);
                lemma_fold_next(lines, convs, a + 4);
                assert(lines[a + 4] == bl[4]);
                assert(bl[4] == rl[0]);
                lemma_rrule_step(s4, ev.rule, x, convs[a + 4]);
            },
            None => {
                assert(ev.rule == RuleModel::NoRepeat);
                assert(r == 0);
                assert(s5 =~= s4);
            },
        }
    }
    let s6 = IcsState { summary: ev.title, ..s5 };
    assert(ics_fold(lines, convs, a + 5 + r) == s6) by {
        lemma_fold_next(lines, convs, a + 4 + r);
        assert(lines[a + (4 + r)] == bl[4 + r]);
        assert(bl[4 + r] == "SUMMARY:"@ + escape_spec(ev.title));
        assert(a + (4 + r) == a + 4 + r);
        lemma_summary_step(s5, ev.title, convs[a + 4 + r]);
    }
    let s7 = IcsState { note: ev.note, ..s6 };
    assert(ics_fold(lines, convs, a + 5 + r + nn) == s7) by {
        if ev.note.len() > 0 {
            assert(nn == 1);
            lemma_fold_next(lines, convs, a + 5 + r);
            assert(lines[a + (5 + r)] == bl[5 + r]);
            assert(bl[5 + r] == "DESCRIPTION:"@ + escape_spec(ev.note));
            assert(a + (5 + r) == a + 5 + r);
            lemma_note_step(s6, ev.note, convs[a + 5 + r]);
        } else {
            assert(nn == 0);
            assert(ev.note =~= Seq::<char>::empty());
            assert(s7 =~= s6);
        }
    }
    assert(ics_fold(lines, convs, a + 6 + r + nn) == (IcsState {
        in_event: false,
        events: e0.push(finished_event(s7, ev.date)),
        ..s7
    })) by {
        lemma_fold_next(lines, convs, a + 5 + r + nn);
        assert(lines[a + (5 + r + nn)] == bl[5 + r + nn]);
        assert(bl[5 + r + nn] == "END:VEVENT"@);
        assert(a + (5 + r + nn) == a + 5 + r + nn);
        lemma_end_step(s7, convs[a + 5 + r + nn]);
    }
    assert(finished_event(s7, ev.date) == read_back(ev));
}

/// What reading back a sequence of exported events gives.
pub open spec fn read_back_all(evs: Seq<ExportModel>) -> Seq<EventModel> {
    evs.map_values(|ev: ExportModel| read_back(ev))
}

/// The lines of several exported events, read in place, add those events in order.
proof fn lemma_blocks_fold(lines: Seq<Seq<char>>, convs: Seq<DateTime>, a: int, evs: Seq<ExportModel>, stamp: DateTime)
    requires
        0 <= a,
        a + all_blocks(evs, stamp).len() <= lines.len(),
        forall|k: int| 0 <= k < all_blocks(evs, stamp).len() ==> lines[a + k] == #[trigger] all_blocks(evs, stamp)[k],
        forall|i: int| 0 <= i < evs.len() ==> exports_cleanly(#[trigger] evs[i]),
        !ics_fold(lines, convs, a).in_event,
    ensures
        !ics_fold(lines, convs, a + all_blocks(evs, stamp).len()).in_event,
        ics_fold(lines, convs, a + all_blocks(evs, stamp).len()).events == ics_fold(lines, convs, a).events
            + read_back_all(evs),
    decreases evs.len(),
{
    if evs.len() == 0 {
        assert(read_back_all(evs) =~= Seq::<EventModel>::empty());
        assert(ics_fold(lines, convs, a).events + read_back_all(evs) =~= ics_fold(lines, convs, a).events);
    } else {
        let front = evs.drop_last();
        let ab = all_blocks(front, stamp);
        let bl = block_lines(evs.last(), stamp);
        assert(all_blocks(evs, stamp) == ab + bl);
        assert forall|k: int| 0 <= k < ab.len() implies lines[a + k] == #[trigger] ab[k] by {
            assert(all_blocks(evs, stamp)[k] == ab[k]);
        }
        assert forall|i: int| 0 <= i < front.len() implies exports_cleanly(#[trigger] front[i]) by {
            assert(front[i] == evs[i]);
        }
        lemma_blocks_fold(lines, convs, a, front, stamp);
        let b = a + ab.len();
        assert forall|k: int| 0 <= k < bl.len() implies lines[b + k] == #[trigger] bl[k] by {
            assert(all_blocks(evs, stamp)[ab.len() + k] == bl[k]);
            assert(a + (ab.len() + k) == b + k);
        }
        assert(exports_cleanly(evs.last())) by {
            assert(evs.last() == evs[evs.len() - 1]);
        }
        lemma_block_fold(lines, convs, b, evs.last(), stamp);
        assert(b + bl.len() == a + all_blocks(evs, stamp).len());
        assert(read_back_all(evs) =~= read_back_all(front).push(read_back(evs.last())));
        assert(ics_fold(lines, convs, a).events + read_back_all(front).push(read_back(evs.last())) =~= (
        ics_fold(lines, convs, a).events + read_back_all(front)).push(read_back(evs.last())));
    }
}

/// A line that the reader takes as it stands: no line break or carriage return, not empty
/// or a continuation, and not starting with `DU` (so not a `DURATION` line).
pub open spec fn plain_line(l: Seq<char>) -> bool {
    unbroken(l) && l.len() > 0 && l[0] != ' ' && l[0] != '\t' && !(l.len() >= 2 && l[0] == 'D' && l[1] == 'U')
}

proof fn lemma_plain_prefix(p: Seq<char>, v: Seq<char>)
    requires
        plain_line(p),
        p.len() >= 2,
        unbroken(p + v),
    ensures
        plain_line(p + v),
{
    assert((p + v)[0] == p[0]);
    assert((p + v)[1] == p[1]);
}

/// The property name of a content line is a prefix of the line.
proof fn lemma_key_prefix(l: Seq<char>)
    ensures
        line_key_value(l) matches Some((k, _)) ==> k.len() <= l.len() && forall|j: int| 0 <= j < k.len() ==> k[j] == l[j],
{
    crate::text::lemma_char_from_bounds(l, ':', 0);
    if let Some((name, _)) = split_once(l, ':') {
        crate::text::lemma_char_from_bounds(name, ';', 0);
    }
}

/// A line that does not start with `DU` is no `DURATION` line.
proof fn lemma_no_duration(l: Seq<char>)
    requires
        !(l.len() >= 2 && l[0] == 'D' && l[1] == 'U'),
    ensures
        line_duration_ok(l),
{
    reveal_strlit("DURATION");
    lemma_key_prefix(l);
    if let Some((k, v)) = line_key_value(l) {
        if k == "DURATION"@ {
            assert(k[0] == l[0] && k[1] == l[1]);
        }
    }
}

#[verifier::rlimit(30)]
proof fn lemma_block_lines_plain(ev: ExportModel, stamp: DateTime)
    requires
        exports_cleanly(ev),
    ensures
        forall|k: int| 0 <= k < block_lines(ev, stamp).len() ==> plain_line(#[trigger] block_lines(ev, stamp)[k]),
{
    reveal_strlit("BEGIN:VEVENT");
    reveal_strlit("END:VEVENT");
    reveal_strlit("UID:");
    reveal_strlit("DTSTAMP:");
    reveal_strlit("DTSTART:");
    reveal_strlit("DTSTART;VALUE=DATE:");
    reveal_strlit("RRULE:");
    reveal_strlit("SUMMARY:");
    reveal_strlit("DESCRIPTION:");
    let st = cleared_state(true, seq![]);
    let bl = block_lines(ev, stamp);
    let rl = rrule_lines(ev.rule);
    let nl = note_lines(ev.note);
    let sm = "SUMMARY:"@ + escape_spec(ev.title);
    let head = seq!["BEGIN:VEVENT"@, "UID:"@ + ev.uid, "DTSTAMP:"@ + stamp_text(stamp), dtstart_body(ev)];
    assert(bl == head + rl + seq![sm] + nl + seq!["END:VEVENT"@]);
    lemma_uid_step(st, ev.uid, stamp);
    lemma_plain_prefix("UID:"@, ev.uid);
    lemma_stamp_step(st, stamp, stamp);
    lemma_plain_prefix("DTSTAMP:"@, stamp_text(stamp));
    lemma_dtstart_step(st, ev, stamp);
    assert(plain_line(dtstart_body(ev))) by {
        match ev.time {
            Some(t) => {
                assert(dtstart_body(ev)[0] == "DTSTART:"@[0]);
                assert(dtstart_body(ev)[1] == "DTSTART:"@[1]);
            },
            None => {
                assert(dtstart_body(ev)[0] == "DTSTART;VALUE=DATE:"@[0]);
                assert(dtstart_body(ev)[1] == "DTSTART;VALUE=DATE:"@[1]);
            },
        }
    }
    lemma_summary_step(st, ev.title, stamp);
    lemma_plain_prefix("SUMMARY:"@, escape_spec(ev.title));
    assert forall|k: int| 0 <= k < rl.len() implies plain_line(#[trigger] rl[k]) by {
        let x = rrule_text(ev.rule)->0;
        lemma_rrule_step(st, ev.rule, x, stamp);
        lemma_plain_prefix("RRULE:"@, x);
    }
    assert forall|k: int| 0 <= k < nl.len() implies plain_line(#[trigger] nl[k]) by {
        lemma_note_step(st, ev.note, stamp);
        lemma_plain_prefix("DESCRIPTION:"@, escape_spec(ev.note));
    }
    assert forall|k: int| 0 <= k < bl.len() implies plain_line(#[trigger] bl[k]) by {
        if k < 4 {
            assert(bl[k] == head[k]);
        } else if k < 4 + rl.len() {
            assert(bl[k] == rl[k - 4]);
        } else if k == 4 + rl.len() {
            assert(bl[k] == sm);
        } else if k < 5 + rl.len() + nl.len() {
            assert(bl[k] == nl[k - 5 - rl.len()]);
        } else {
            assert(bl[k] == "END:VEVENT"@);
        }
    }
}

proof fn lemma_all_blocks_plain(evs: Seq<ExportModel>, stamp: DateTime)
    requires
        forall|i: int| 0 <= i < evs.len() ==> exports_cleanly(#[trigger] evs[i]),
    ensures
        forall|k: int| 0 <= k < all_blocks(evs, stamp).len() ==> plain_line(#[trigger] all_blocks(evs, stamp)[k]),
    decreases evs.len(),
{
    if evs.len() > 0 {
        let front = evs.drop_last();
        assert forall|i: int| 0 <= i < front.len() implies exports_cleanly(#[trigger] front[i]) by {
            assert(front[i] == evs[i]);
        }
        lemma_all_blocks_plain(front, stamp);
        assert(exports_cleanly(evs.last())) by {
            assert(evs.last() == evs[evs.len() - 1]);
        }
        lemma_block_lines_plain(evs.last(), stamp);
        let ab = all_blocks(front, stamp);
        let bl = block_lines(evs.last(), stamp);
        assert(all_blocks(evs, stamp) == ab + bl);
        assert forall|k: int| 0 <= k < all_blocks(evs, stamp).len() implies plain_line(#[trigger] all_blocks(evs, stamp)[k]) by {
            if k < ab.len() {
                assert(all_blocks(evs, stamp)[k] == ab[k]);
            } else {
                assert(all_blocks(evs, stamp)[k] == bl[k - ab.len()]);
            }
        }
    }
}

/// A line outside an event that does not begin one leaves the reader as it was.
proof fn lemma_quiet_fold(lines: Seq<Seq<char>>, convs: Seq<DateTime>, m: int)
    requires
        0 <= m,
        !ics_fold(lines, convs, m).in_event,
        trim_cr(lines[m]) != "BEGIN:VEVENT"@,
    ensures
        !ics_fold(lines, convs, m + 1).in_event,
        ics_fold(lines, convs, m + 1).events == ics_fold(lines, convs, m).events,
{
    lemma_fold_next(lines, convs, m);
    lemma_quiet_step(ics_fold(lines, convs, m), lines[m], convs[m]);
}

/// The calendar name line keeps its `X-WR-CALNAME:` start through `trim_cr`.
proof fn lemma_name_line(name: Seq<char>)
    ensures
        !("X-WR-CALNAME:"@ + escape_spec(name)).contains('\n'),
        trim_cr("X-WR-CALNAME:"@ + escape_spec(name)).len() > 0,
        trim_cr("X-WR-CALNAME:"@ + escape_spec(name))[0] == 'X',
        trim_cr(trim_cr("X-WR-CALNAME:"@ + escape_spec(name))) != "BEGIN:VEVENT"@,
        trim_cr(trim_cr("X-WR-CALNAME:"@ + escape_spec(name)))[0] == 'X',
{
    reveal_strlit("X-WR-CALNAME:");
    reveal_strlit("BEGIN:VEVENT");
    let p = "X-WR-CALNAME:"@;
    let l = p + escape_spec(name);
    lemma_escape_unbroken(name);
    assert(!p.contains('\n'));
    crate::text::lemma_contains_concat(p, escape_spec(name), '\n');
    lemma_trim_cr_facts(l);
    let t = trim_cr(l);
    assert(t.len() >= 13) by {
        if t.len() < 13 {
            assert(l[12] == '\r');
            assert(l[12] == p[12]);
        }
    }
    assert(t[0] == l[0]);
    lemma_trim_cr_facts(t);
    let u = trim_cr(t);
    assert(u.len() >= 13) by {
        if u.len() < 13 {
            assert(t[12] == '\r');
            assert(t[12] == l[12]);
        }
    }
    assert(u[0] == t[0]);
    assert(u != "BEGIN:VEVENT"@) by {
        assert("BEGIN:VEVENT"@[0] == 'B');
    }
}

/// The lines the reader sees in an exported calendar: those that were written, the name
/// line as `trim_cr` leaves it, and an empty rest.
#[verifier::rlimit(30)]
proof fn lemma_export_lines_read(name: Seq<char>, evs: Seq<ExportModel>, stamp: DateTime)
    requires
        forall|i: int| 0 <= i < evs.len() ==> exports_cleanly(#[trigger] evs[i]),
    ensures
        ({
            let lines = ics_lines(ics_text(name, evs, stamp));
            let el = export_lines(name, evs, stamp);
            &&& lines.len() == el.len() + 1
            &&& forall|k: int| 0 <= k < el.len() && k != 4 ==> lines[k] == #[trigger] el[k]
            &&& lines[4] == trim_cr(el[4])
            &&& lines[el.len() as int] == Seq::<char>::empty()
            &&& forall|k: int| 0 <= k < el.len() && k != 4 ==> plain_line(#[trigger] el[k])
        }),
{
    reveal_strlit("BEGIN:VCALENDAR");
    reveal_strlit("VERSION:2.0");
    reveal_strlit("PRODID:-//rili//本地优先日历//ZH");
    reveal_strlit("CALSCALE:GREGORIAN");
    reveal_strlit("END:VCALENDAR");
    let h = header_lines(name);
    let ab = all_blocks(evs, stamp);
    let el = export_lines(name, evs, stamp);
    assert(el == h + ab + seq!["END:VCALENDAR"@]);
    lemma_all_blocks_plain(evs, stamp);
    lemma_name_line(name);
    assert forall|k: int| 0 <= k < el.len() && k != 4 implies plain_line(#[trigger] el[k]) by {
        if k < 4 {
            assert(el[k] == h[k]);
        } else if k < 5 + ab.len() {
            assert(el[k] == ab[k - 5]);
        } else {
            assert(el[k] == "END:VCALENDAR"@);
        }
    }
    assert forall|k: int| 0 <= k < el.len() && k != 4 implies trim_cr(#[trigger] el[k]) == el[k] by {
        lemma_trim_cr_id(el[k]);
    }
    assert(el[4] == "X-WR-CALNAME:"@ + escape_spec(name));
    assert forall|k: int| 0 <= k < el.len() implies !(#[trigger] el[k]).contains('\n') by {}
    assert forall|k: int| 0 <= k < el.len() implies trim_cr(#[trigger] el[k]).len() > 0 && !is_continuation(
        trim_cr(el[k]),
    ) by {}
    lemma_ics_text_lines(name, evs, stamp);
    lemma_ics_lines_of(el);
    let lines = ics_lines(ics_text(name, evs, stamp));
    assert(lines == trimmed_lines(el) + seq![Seq::<char>::empty()]);
    assert forall|k: int| 0 <= k < el.len() && k != 4 implies lines[k] == #[trigger] el[k] by {
        assert(lines[k] == trimmed_lines(el)[k]);
    }
    assert(lines[4] == trimmed_lines(el)[4]);
}

/// An exported calendar of events in the subset meets what `parse_ics` requires: it holds
/// no `DURATION` line.
pub proof fn lemma_export_durations_fit(name: Seq<char>, evs: Seq<ExportModel>, stamp: DateTime)
    requires
        forall|i: int| 0 <= i < evs.len() ==> exports_cleanly(#[trigger] evs[i]),
    ensures
        durations_fit(ics_lines(ics_text(name, evs, stamp))),
{
    lemma_export_lines_read(name, evs, stamp);
    lemma_name_line(name);
    let lines = ics_lines(ics_text(name, evs, stamp));
    let el = export_lines(name, evs, stamp);
    assert forall|i: int| 0 <= i < lines.len() && #[trigger] in_event_after(lines, i) implies line_duration_ok(
        trim_cr(lines[i]),
    ) by {
        if i == el.len() {
            assert(trim_cr(lines[i]) == Seq::<char>::empty());
            lemma_no_duration(trim_cr(lines[i]));
        } else if i == 4 {
            lemma_no_duration(trim_cr(lines[i]));
        } else {
            assert(lines[i] == el[i]);
            assert(plain_line(el[i]));
            lemma_trim_cr_id(el[i]);
            lemma_no_duration(el[i]);
        }
    }
}

/// Reading back what was exported: for events in the subset that `exports_cleanly`
/// describes, the events that the reader finds in the text that `export_ics` writes are
/// the exported events, in order, each with its id, title, day, time, note and rule,
/// whatever the calendar name, the time stamp and the machine's time zone. The text meets
/// `parse_ics`'s requirement, so the two calls compose.
pub proof fn lemma_export_read_back(name: Seq<char>, evs: Seq<ExportModel>, stamp: DateTime, convs: Seq<DateTime>)
    requires
        forall|i: int| 0 <= i < evs.len() ==> exports_cleanly(#[trigger] evs[i]),
    ensures
        durations_fit(ics_lines(ics_text(name, evs, stamp))),
        ics_events(ics_text(name, evs, stamp), convs) == read_back_all(evs),
{
    lemma_export_durations_fit(name, evs, stamp);
    reveal_strlit("BEGIN:VCALENDAR");
    reveal_strlit("VERSION:2.0");
    reveal_strlit("PRODID:-//rili//本地优先日历//ZH");
    reveal_strlit("CALSCALE:GREGORIAN");
    reveal_strlit("END:VCALENDAR");
    reveal_strlit("BEGIN:VEVENT");
    let h = header_lines(name);
    let ab = all_blocks(evs, stamp);
    let el = export_lines(name, evs, stamp);
    assert(el == h + ab + seq!["END:VCALENDAR"@]);
    lemma_export_lines_read(name, evs, stamp);
    lemma_name_line(name);
    let lines = ics_lines(ics_text(name, evs, stamp));
    let b: int = 5 + ab.len() as int;
    let hd = seq!["BEGIN:VCALENDAR"@, "VERSION:2.0"@, "PRODID:-//rili//本地优先日历//ZH"@, "CALSCALE:GREGORIAN"@];
    assert forall|m: int| 0 <= m < 4 implies trim_cr(#[trigger] hd[m]) != "BEGIN:VEVENT"@ by {
        assert(hd[m] == h[m]);
        lemma_trim_cr_id(h[m]);
        assert(hd[m].len() != "BEGIN:VEVENT"@.len());
    }
    assert(lines[0] == hd[0] && lines[1] == hd[1] && lines[2] == hd[2] && lines[3] == hd[3]) by {
        assert(lines[0] == el[0] && el[0] == h[0]);
        assert(lines[1] == el[1] && el[1] == h[1]);
        assert(lines[2] == el[2] && el[2] == h[2]);
        assert(lines[3] == el[3] && el[3] == h[3]);
    }
    assert(!ics_fold(lines, convs, 0).in_event && ics_fold(lines, convs, 0).events == Seq::<EventModel>::empty());
    lemma_quiet_fold(lines, convs, 0);
    lemma_quiet_fold(lines, convs, 1);
    lemma_quiet_fold(lines, convs, 2);
    lemma_quiet_fold(lines, convs, 3);
    lemma_quiet_fold(lines, convs, 4);
    assert forall|k: int| 0 <= k < ab.len() implies lines[5 + k] == #[trigger] ab[k] by {
        assert(el[5 + k] == ab[k]);
        assert(lines[5 + k] == el[5 + k]);
    }
    lemma_blocks_fold(lines, convs, 5, evs, stamp);
    assert(Seq::<EventModel>::empty() + read_back_all(evs) =~= read_back_all(evs));
    assert(lines[b] == el[b]);
    assert(el[b] == "END:VCALENDAR"@);
    lemma_trim_cr_id("END:VCALENDAR"@);
    lemma_quiet_fold(lines, convs, b);
    lemma_quiet_fold(lines, convs, b + 1);
    assert(lines.len() == b + 2);
}

} // verus!
