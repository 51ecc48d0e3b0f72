//! Offline reading of short Chinese event descriptions into a draft event.
//!
//! The reader is deliberately small and explainable: it recognises common date, time and
//! reminder phrases and leaves the rest as the title. It only produces a `Draft`, which the
//! user confirms before anything is stored.

use crate::date::{advance, hm_text, iso_date_text, parse_iso_date, valid_ymd, dashed_date, dashed_shape, Date};
use crate::text::{
    all_digits, append_all, append_str, chars_of, contains, contains_str, decimal, decimal_u64,
    digit_value, digits_upto, digits_value, find, find_str, is_digit, is_ws, join, join_chars,
    replace, replace_chars, replace_str, slice_chars, string_from_chars, trim, trim_str, views,
};
use vstd::prelude::*;

verus! {

// ------------------------------------------------------------------
// Numbers
// ------------------------------------------------------------------

/// The value of a Chinese digit character.
pub open spec fn cn_digit_value(c: char) -> Option<u32> {
    if c == '零' || c == '〇' {
        Some(0u32)
    } else if c == '一' {
        Some(1u32)
    } else if c == '二' || c == '两' {
        Some(2u32)
    } else if c == '三' {
        Some(3u32)
    } else if c == '四' {
        Some(4u32)
    } else if c == '五' {
        Some(5u32)
    } else if c == '六' {
        Some(6u32)
    } else if c == '七' {
        Some(7u32)
    } else if c == '八' {
        Some(8u32)
    } else if c == '九' {
        Some(9u32)
    } else {
        None
    }
}

pub fn cn_digit(value: char) -> (r: Option<u32>)
    ensures
        r == cn_digit_value(value),
{
    if value == '零' || value == '〇' {
        Some(0)
    } else if value == '一' {
        Some(1)
    } else if value == '二' || value == '两' {
        Some(2)
    } else if value == '三' {
        Some(3)
    } else if value == '四' {
        Some(4)
    } else if value == '五' {
        Some(5)
    } else if value == '六' {
        Some(6)
    } else if value == '七' {
        Some(7)
    } else if value == '八' {
        Some(8)
    } else if value == '九' {
        Some(9)
    } else {
        None
    }
}

pub fn is_cn_digit(value: char) -> (b: bool)
    ensures
        b == cn_digit_value(value) is Some,
{
    cn_digit(value).is_some()
}

/// A Chinese number of up to two digits: `十`, `三`, `十五`, `二十`, `二十三`.
pub open spec fn chinese_number_value(w: Seq<char>) -> Option<u32> {
    if w == seq!['十'] {
        Some(10u32)
    } else {
        match find(w, seq!['十']) {
            Some(k) => {
                let left = w.subrange(0, k);
                let right = w.subrange(k + 1, w.len() as int);
                let tens = if left.len() == 0 {
                    Some(1u32)
                } else {
                    cn_digit_value(left[0])
                };
                let ones = if right.len() == 0 {
                    Some(0u32)
                } else {
                    cn_digit_value(right[0])
                };
                match (tens, ones) {
                    (Some(t), Some(o)) => Some((t * 10 + o) as u32),
                    _ => None,
                }
            },
            None => if w.len() == 1 {
                cn_digit_value(w[0])
            } else {
                None
            },
        }
    }
}

fn chinese_number_chars(w: &Vec<char>) -> (r: Option<u32>)
    ensures
        r == chinese_number_value(w@),
{
    let ten = chars_of("十");
    proof {
        reveal_strlit("十");
        assert(ten@ =~= seq!['十']);
    }
    if crate::text::seq_eq(w, &ten) {
        return Some(10);
    }
    match crate::text::find_chars(w, &ten) {
        Some(k) => {
            proof {
                crate::text::lemma_find_from_bounds(w@, ten@, 0);
                assert(crate::text::match_at(w@, ten@, k as int));
                assert(ten@.len() == 1);
            }
            assert(k < w.len());
            let tens = if k == 0 {
                Some(1u32)
            } else {
                cn_digit(w[0])
            };
            let ones = if k + 1 == w.len() {
                Some(0u32)
            } else {
                cn_digit(w[k + 1])
            };
            match (tens, ones) {
                (Some(t), Some(o)) => Some(t * 10 + o),
                _ => None,
            }
        },
        None => {
            if w.len() == 1 {
                cn_digit(w[0])
            } else {
                None
            }
        },
    }
}

/// Reads a Chinese number of up to two digits.
pub fn chinese_number(value: &str) -> (r: Option<u32>)
    ensures
        r == chinese_number_value(value@),
{
    let v = chars_of(value);
    chinese_number_chars(&v)
}

/// The index of the first character from `i` on that is an ASCII or a Chinese digit.
pub open spec fn number_start(v: Seq<char>, i: int) -> int
    decreases v.len() - i,
{
    if i < 0 || i >= v.len() {
        v.len() as int
    } else if is_digit(v[i]) || cn_digit_value(v[i]) is Some {
        i
    } else {
        number_start(v, i + 1)
    }
}

/// The end of the run of ASCII digits from `i`.
pub open spec fn digits_end(v: Seq<char>, i: int) -> int
    decreases v.len() - i,
{
    if i < 0 || i >= v.len() {
        v.len() as int
    } else if is_digit(v[i]) {
        digits_end(v, i + 1)
    } else {
        i
    }
}

/// The end of the run of Chinese digits and `十` from `i`.
pub open spec fn cn_end(v: Seq<char>, i: int) -> int
    decreases v.len() - i,
{
    if i < 0 || i >= v.len() {
        v.len() as int
    } else if cn_digit_value(v[i]) is Some || v[i] == '十' {
        cn_end(v, i + 1)
    } else {
        i
    }
}

/// `str::parse::<u32>` of a run of ASCII digits.
pub open spec fn digits_u32(ds: Seq<char>) -> Option<u32> {
    if ds.len() > 0 && all_digits(ds) && digits_value(ds) <= u32::MAX {
        Some(digits_value(ds) as u32)
    } else {
        None
    }
}

/// The first number of a text: the first run of ASCII digits, or the first Chinese number
/// (a Chinese digit followed by Chinese digits and `十`), whichever comes first.
pub open spec fn first_cn_number(v: Seq<char>) -> Option<u32> {
    let i = number_start(v, 0);
    if i >= v.len() {
        None
    } else if is_digit(v[i]) {
        digits_u32(v.subrange(i, digits_end(v, i)))
    } else {
        chinese_number_value(v.subrange(i, cn_end(v, i + 1)))
    }
}

proof fn lemma_run_bounds(v: Seq<char>, i: int)
    requires
        0 <= i <= v.len(),
    ensures
        i <= number_start(v, i) <= v.len(),
        i <= digits_end(v, i) <= v.len(),
        i <= cn_end(v, i) <= v.len(),
        all_digits(v.subrange(i, digits_end(v, i))),
    decreases v.len() - i,
{
    if i < v.len() {
        lemma_run_bounds(v, i + 1);
        if is_digit(v[i]) {
            assert forall|k: int| 0 <= k < digits_end(v, i) - i implies is_digit(
                #[trigger] v.subrange(i, digits_end(v, i))[k],
            ) by {
                if k > 0 {
                    assert(v.subrange(i, digits_end(v, i))[k] == v.subrange(
                        i + 1,
                        digits_end(v, i + 1),
                    )[k - 1]);
                }
            }
        }
    }
}

fn u32_of_digits(ds: &Vec<char>) -> (r: Option<u32>)
    ensures
        r == digits_u32(ds@),
{
    match digits_upto(ds, 0, 0xffff_ffffu64) {
        Some(v) => {
            assert(ds@.subrange(0, ds@.len() as int) =~= ds@);
            Some(v as u32)
        },
        None => {
            assert(ds@.subrange(0, ds@.len() as int) =~= ds@);
            None
        },
    }
}

fn first_cn_number_chars(v: &Vec<char>) -> (r: Option<u32>)
    ensures
        r == first_cn_number(v@),
{
    let mut i: usize = 0;
    while i < v.len() && !(('0' <= v[i] && v[i] <= '9') || is_cn_digit(v[i]))
        invariant
            i <= v.len(),
            number_start(v@, i as int) == number_start(v@, 0),
        decreases v.len() - i,
    {
        i = i + 1;
    }
    if i >= v.len() {
        return None;
    }
    proof {
        lemma_run_bounds(v@, i as int);
        lemma_run_bounds(v@, i + 1);
    }
    if '0' <= v[i] && v[i] <= '9' {
        let mut j = i;
        while j < v.len() && '0' <= v[j] && v[j] <= '9'
            invariant
                i <= j <= v.len(),
                digits_end(v@, j as int) == digits_end(v@, i as int),
            decreases v.len() - j,
        {
            j = j + 1;
        }
        let ds = slice_chars(v, i, j);
        u32_of_digits(&ds)
    } else {
        let mut j = i + 1;
        while j < v.len() && (is_cn_digit(v[j]) || v[j] == '十')
            invariant
                i + 1 <= j <= v.len(),
                cn_end(v@, j as int) == cn_end(v@, i + 1),
            decreases v.len() - j,
        {
            j = j + 1;
        }
        let w = slice_chars(v, i, j);
        chinese_number_chars(&w)
    }
}

/// The first number of a text, in ASCII digits or in Chinese.
pub fn first_chinese_number(value: &str) -> (r: Option<u32>)
    ensures
        r == first_cn_number(value@),
{
    let v = chars_of(value);
    first_cn_number_chars(&v)
}

/// The start of the run of ASCII digits that ends the first `j` characters.
pub open spec fn trailing_digits_start(v: Seq<char>, j: int) -> int
    decreases j,
{
    if j <= 0 || j > v.len() {
        if j <= 0 { 0 } else { v.len() as int }
    } else if is_digit(v[j - 1]) {
        trailing_digits_start(v, j - 1)
    } else {
        j
    }
}

/// The ASCII digits at the end of a text, if any.
pub open spec fn last_digits(v: Seq<char>) -> Option<Seq<char>> {
    let k = trailing_digits_start(v, v.len() as int);
    if k < v.len() {
        Some(v.subrange(k, v.len() as int))
    } else {
        None
    }
}

/// The first run of ASCII digits of a text, if any.
pub open spec fn first_digits(v: Seq<char>) -> Option<Seq<char>> {
    let i = first_digit_from(v, 0);
    if i < v.len() {
        Some(v.subrange(i, digits_end(v, i)))
    } else {
        None
    }
}

pub open spec fn first_digit_from(v: Seq<char>, i: int) -> int
    decreases v.len() - i,
{
    if i < 0 || i >= v.len() {
        v.len() as int
    } else if is_digit(v[i]) {
        i
    } else {
        first_digit_from(v, i + 1)
    }
}

proof fn lemma_trailing_bounds(v: Seq<char>, j: int)
    requires
        0 <= j <= v.len(),
    ensures
        0 <= trailing_digits_start(v, j) <= j,
        all_digits(v.subrange(trailing_digits_start(v, j), j)),
    decreases j,
{
    if j > 0 && is_digit(v[j - 1]) {
        lemma_trailing_bounds(v, j - 1);
        let k = trailing_digits_start(v, j);
        assert forall|x: int| 0 <= x < j - k implies is_digit(#[trigger] v.subrange(k, j)[x]) by {
            if x < j - 1 - k {
                assert(v.subrange(k, j)[x] == v.subrange(k, j - 1)[x]);
            }
        }
    } else {
        assert(v.subrange(j, j).len() == 0);
    }
}

proof fn lemma_first_digit_bounds(v: Seq<char>, i: int)
    requires
        0 <= i <= v.len(),
    ensures
        i <= first_digit_from(v, i) <= v.len(),
        first_digit_from(v, i) < v.len() ==> is_digit(v[first_digit_from(v, i)]),
    decreases v.len() - i,
{
    if i < v.len() && !is_digit(v[i]) {
        lemma_first_digit_bounds(v, i + 1);
    }
}

fn last_digits_chars(v: &Vec<char>) -> (r: Option<Vec<char>>)
    ensures
        r is Some <==> last_digits(v@) is Some,
        r matches Some(d) ==> last_digits(v@) == Some(d@),
{
    let mut k: usize = v.len();
    while k > 0 && '0' <= v[k - 1] && v[k - 1] <= '9'
        invariant
            k <= v.len(),
            trailing_digits_start(v@, k as int) == trailing_digits_start(v@, v.len() as int),
        decreases k,
    {
        k = k - 1;
    }
    if k < v.len() {
        Some(slice_chars(v, k, v.len()))
    } else {
        None
    }
}

fn first_digits_chars(v: &Vec<char>) -> (r: Option<Vec<char>>)
    ensures
        r is Some <==> first_digits(v@) is Some,
        r matches Some(d) ==> first_digits(v@) == Some(d@),
{
    let mut i: usize = 0;
    while i < v.len() && !('0' <= v[i] && v[i] <= '9')
        invariant
            i <= v.len(),
            first_digit_from(v@, i as int) == first_digit_from(v@, 0),
        decreases v.len() - i,
    {
        i = i + 1;
    }
    if i >= v.len() {
        return None;
    }
    proof {
        lemma_run_bounds(v@, i as int);
    }
    let mut j = i;
    while j < v.len() && '0' <= v[j] && v[j] <= '9'
        invariant
            i <= j <= v.len(),
            digits_end(v@, j as int) == digits_end(v@, i as int),
        decreases v.len() - j,
    {
        j = j + 1;
    }
    Some(slice_chars(v, i, j))
}

pub open spec fn opt_string_view(o: Option<String>) -> Option<Seq<char>> {
    match o {
        Some(s) => Some(s@),
        None => None,
    }
}

/// The ASCII digits at the end of a text, if any.
pub fn last_ascii_digits(value: &str) -> (r: Option<String>)
    ensures
        opt_string_view(r) == last_digits(value@),
{
    let v = chars_of(value);
    match last_digits_chars(&v) {
        Some(d) => Some(string_from_chars(&d)),
        None => None,
    }
}

/// The first run of ASCII digits of a text, if any.
pub fn first_ascii_digits(value: &str) -> (r: Option<String>)
    ensures
        opt_string_view(r) == first_digits(value@),
{
    let v = chars_of(value);
    match first_digits_chars(&v) {
        Some(d) => Some(string_from_chars(&d)),
        None => None,
    }
}

/// The weekday a character names after `下周` (0 = Monday .. 6 = Sunday).
pub open spec fn weekday_char(c: char) -> Option<u8> {
    if c == '一' || c == '1' {
        Some(0u8)
    } else if c == '二' || c == '2' {
        Some(1u8)
    } else if c == '三' || c == '3' {
        Some(2u8)
    } else if c == '四' || c == '4' {
        Some(3u8)
    } else if c == '五' || c == '5' {
        Some(4u8)
    } else if c == '六' || c == '6' {
        Some(5u8)
    } else if c == '日' || c == '天' || c == '7' {
        Some(6u8)
    } else {
        None
    }
}

pub fn parse_weekday(value: char) -> (r: Option<u8>)
    ensures
        r == weekday_char(value),
{
    if value == '一' || value == '1' {
        Some(0)
    } else if value == '二' || value == '2' {
        Some(1)
    } else if value == '三' || value == '3' {
        Some(2)
    } else if value == '四' || value == '4' {
        Some(3)
    } else if value == '五' || value == '5' {
        Some(4)
    } else if value == '六' || value == '6' {
        Some(5)
    } else if value == '日' || value == '天' || value == '7' {
        Some(6)
    } else {
        None
    }
}

// ------------------------------------------------------------------
// Dates
// ------------------------------------------------------------------

/// The day offset that a relative word gives: `大后天` 3, `后天` 2, `明天` 1, `今天` 0, or
/// `下周` with a weekday (Monday when none is named), counted from today's weekday.
pub open spec fn relative_offset(s: Seq<char>, today: Date) -> Option<int> {
    if contains(s, "大后天"@) {
        Some(3)
    } else if contains(s, "后天"@) {
        Some(2)
    } else if contains(s, "明天"@) {
        Some(1)
    } else if contains(s, "今天"@) {
        Some(0)
    } else {
        match find(s, "下周"@) {
            Some(i) => {
                let j = i + "下周"@.len();
                let target: int = if j < s.len() {
                    match weekday_char(s[j]) {
                        Some(w) => w as int,
                        None => 0,
                    }
                } else {
                    0
                };
                Some(7 + target - today.weekday())
            },
            None => None,
        }
    }
}

/// The first ten characters from `i` on of the shape `DDDD-DD-DD` that name a day.
pub open spec fn dashed_from(s: Seq<char>, i: int) -> Option<Date>
    decreases s.len() - i,
{
    if i < 0 || i + 10 > s.len() {
        None
    } else {
        let w = s.subrange(i, i + 10);
        if dashed_shape(w) && dashed_date(w) is Some {
            dashed_date(w)
        } else {
            dashed_from(s, i + 1)
        }
    }
}

/// The index of the last occurrence of `c` among the first `j` characters.
pub open spec fn last_index_before(s: Seq<char>, c: char, j: int) -> Option<int>
    decreases j,
{
    if j <= 0 || j > s.len() {
        None
    } else if s[j - 1] == c {
        Some(j - 1)
    } else {
        last_index_before(s, c, j - 1)
    }
}

/// `str::parse::<i32>` of a run of ASCII digits.
pub open spec fn digits_i32(ds: Seq<char>) -> Option<i32> {
    if ds.len() > 0 && all_digits(ds) && digits_value(ds) <= i32::MAX {
        Some(digits_value(ds) as i32)
    } else {
        None
    }
}

/// `M月D日`, optionally preceded by `Y年`: the digits right before the first `月` are the month,
/// the first digits after it the day, and the digits right before the last `年` ahead of it
/// the year (this year when absent).
pub open spec fn month_date(s: Seq<char>, today: Date) -> Option<Date> {
    match find(s, seq!['月']) {
        None => None,
        Some(mi) => {
            let before = s.subrange(0, mi);
            match last_digits(before) {
                None => None,
                Some(md) => match digits_u32(md) {
                    None => None,
                    Some(month) => {
                        let after = s.subrange(mi + 1, s.len() as int);
                        match first_digits(after) {
                            None => None,
                            Some(dd) => match digits_u32(dd) {
                                None => None,
                                Some(day) => {
                                    let year: int = match last_index_before(
                                        before,
                                        '年',
                                        before.len() as int,
                                    ) {
                                        Some(yi) => match last_digits(before.subrange(0, yi)) {
                                            Some(yd) => match digits_i32(yd) {
                                                Some(y) => y as int,
                                                None => today.year as int,
                                            },
                                            None => today.year as int,
                                        },
                                        None => today.year as int,
                                    };
                                    if valid_ymd(year, month as int, day as int) {
                                        Some(Date { year: year as i32, month, day })
                                    } else {
                                        None
                                    }
                                },
                            },
                        }
                    },
                },
            }
        },
    }
}

/// The date a description names, if any.
pub open spec fn find_date_spec(s: Seq<char>, today: Date) -> Option<Date> {
    match relative_offset(s, today) {
        Some(k) => Some(advance(today, k as nat)),
        None => match dashed_from(s, 0) {
            Some(d) => Some(d),
            None => month_date(s, today),
        },
    }
}

/// The description leaves today far enough from the last supported day for a relative date.
pub open spec fn relative_in_range(s: Seq<char>, today: Date) -> bool {
    relative_offset(s, today) matches Some(k) ==> today.dn() + k <= crate::date::max_day_number()
}

fn relative_offset_exec(s: &Vec<char>, today: &Date) -> (r: Option<i64>)
    requires
        today.wf(),
    ensures
        r matches Some(k) ==> relative_offset(s@, *today) == Some(k as int),
        r is None ==> relative_offset(s@, *today) is None,
        r matches Some(k) ==> 0 <= k <= 13,
{
    if contains_str(s, "大后天") {
        Some(3)
    } else if contains_str(s, "后天") {
        Some(2)
    } else if contains_str(s, "明天") {
        Some(1)
    } else if contains_str(s, "今天") {
        Some(0)
    } else {
        let pat = chars_of("下周");
        match crate::text::find_chars(s, &pat) {
            Some(i) => {
                proof {
                    crate::text::lemma_find_from_bounds(s@, pat@, 0);
                    assert(crate::text::match_at(s@, pat@, i as int));
                    assert(i + pat@.len() <= s@.len());
                }
                assert(i + pat.len() <= s.len());
                let j = i + pat.len();
                let target: i64 = if j < s.len() {
                    match parse_weekday(s[j]) {
                        Some(w) => w as i64,
                        None => 0,
                    }
                } else {
                    0
                };
                let current = today.weekday_from_monday() as i64;
                Some(7 + target - current)
            },
            None => None,
        }
    }
}

fn dashed_shape_at(s: &Vec<char>, i: usize) -> (b: bool)
    requires
        i + 10 <= s.len(),
    ensures
        b == dashed_shape(s@.subrange(i as int, i + 10)),
{
    let ghost w = s@.subrange(i as int, i + 10);
    if s[i + 4] != '-' || s[i + 7] != '-' {
        return false;
    }
    let mut k: usize = 0;
    while k < 10
        invariant
            i + 10 <= s.len(),
            w == s@.subrange(i as int, i + 10),
            k <= 10,
            forall|x: int| 0 <= x < k && x != 4 && x != 7 ==> is_digit(#[trigger] w[x]),
        decreases 10 - k,
    {
        if k != 4 && k != 7 && !('0' <= s[i + k] && s[i + k] <= '9') {
            assert(w[k as int] == s@[i + k]);
            proof {
                if k < 4 {
                    assert(w.subrange(0, 4)[k as int] == w[k as int]);
                } else if k < 7 {
                    assert(w.subrange(5, 7)[k - 5] == w[k as int]);
                } else {
                    assert(w.subrange(8, 10)[k - 8] == w[k as int]);
                }
            }
            return false;
        }
        k = k + 1;
    }
    assert(all_digits(w.subrange(0, 4)));
    assert(all_digits(w.subrange(5, 7)));
    assert(all_digits(w.subrange(8, 10)));
    true
}

fn dashed_scan(s: &Vec<char>) -> (r: Option<Date>)
    ensures
        r == dashed_from(s@, 0),
{
    let mut i: usize = 0;
    while s.len() >= 10 && i <= s.len() - 10
        invariant
            dashed_from(s@, i as int) == dashed_from(s@, 0),
        decreases s.len() - i,
    {
        if dashed_shape_at(s, i) {
            let w = slice_chars(s, i, i + 10);
            let text = string_from_chars(&w);
            let parsed = parse_iso_date(text.as_str());
            if parsed.is_some() {
                return parsed;
            }
        }
        i = i + 1;
    }
    None
}

fn last_index_of(s: &Vec<char>, c: char) -> (r: Option<usize>)
    ensures
        r matches Some(k) ==> last_index_before(s@, c, s@.len() as int) == Some(k as int)
            && k < s@.len(),
        r is None ==> last_index_before(s@, c, s@.len() as int) is None,
{
    let mut j: usize = s.len();
    while j > 0
        invariant
            j <= s.len(),
            last_index_before(s@, c, j as int) == last_index_before(s@, c, s@.len() as int),
        decreases j,
    {
        if s[j - 1] == c {
            return Some(j - 1);
        }
        j = j - 1;
    }
    None
}

fn i32_of_digits(ds: &Vec<char>) -> (r: Option<i32>)
    ensures
        r == digits_i32(ds@),
{
    match digits_upto(ds, 0, 0x7fff_ffffu64) {
        Some(v) => {
            assert(ds@.subrange(0, ds@.len() as int) =~= ds@);
            Some(v as i32)
        },
        None => {
            assert(ds@.subrange(0, ds@.len() as int) =~= ds@);
            None
        },
    }
}

fn month_date_exec(s: &Vec<char>, today: &Date) -> (r: Option<Date>)
    ensures
        r == month_date(s@, *today),
{
    let yue = chars_of("月");
    proof {
        reveal_strlit("月");
        assert(yue@ =~= seq!['月']);
    }
    let mi = match crate::text::find_chars(s, &yue) {
        Some(mi) => mi,
        None => return None,
    };
    proof {
        crate::text::lemma_find_from_bounds(s@, yue@, 0);
        assert(crate::text::match_at(s@, yue@, mi as int));
        assert(mi + yue@.len() <= s@.len());
    }
    assert(mi + 1 <= s.len());
    let before = slice_chars(s, 0, mi);
    let md = match last_digits_chars(&before) {
        Some(md) => md,
        None => return None,
    };
    let month = match u32_of_digits(&md) {
        Some(m) => m,
        None => return None,
    };
    let after = slice_chars(s, mi + 1, s.len());
    let dd = match first_digits_chars(&after) {
        Some(dd) => dd,
        None => return None,
    };
    let day = match u32_of_digits(&dd) {
        Some(d) => d,
        None => return None,
    };
    let year: i32 = match last_index_of(&before, '年') {
        Some(yi) => {
            let head = slice_chars(&before, 0, yi);
            match last_digits_chars(&head) {
                Some(yd) => match i32_of_digits(&yd) {
                    Some(y) => y,
                    None => today.year,
                },
                None => today.year,
            }
        },
        None => today.year,
    };
    Date::from_ymd_opt(year, month, day)
}

fn find_date_chars(s: &Vec<char>, today: &Date) -> (r: Option<Date>)
    requires
        today.wf(),
        relative_in_range(s@, *today),
    ensures
        r == find_date_spec(s@, *today),
{
    match relative_offset_exec(s, today) {
        Some(k) => {
            let d = today.add_days(k);
            proof {
                crate::date::lemma_advance(*today, k as nat);
                crate::date::lemma_dn_range(*today);
            }
            match d {
                Some(d) => {
                    proof {
                        crate::date::lemma_dn_injective(d, advance(*today, k as nat));
                    }
                    Some(d)
                },
                None => None,
            }
        },
        None => match dashed_scan(s) {
            Some(d) => Some(d),
            None => month_date_exec(s, today),
        },
    }
}

/// Finds the date a description names: a relative word, a `YYYY-MM-DD` date, or `M月D日`.
pub fn find_date(input: &str, today: &Date) -> (r: Option<Date>)
    requires
        today.wf(),
        relative_in_range(input@, *today),
    ensures
        r == find_date_spec(input@, *today),
{
    let s = chars_of(input);
    find_date_chars(&s, today)
}

// ------------------------------------------------------------------
// Times
// ------------------------------------------------------------------

/// The first `HH:MM` from `i` on with an hour below 24 and a minute below 60.
pub open spec fn hm_window_from(s: Seq<char>, i: int) -> Option<(int, int)>
    decreases s.len() - i,
{
    if i < 0 || i + 5 > s.len() {
        None
    } else {
        let h = digit_value(s[i]) * 10 + digit_value(s[i + 1]);
        let m = digit_value(s[i + 3]) * 10 + digit_value(s[i + 4]);
        if s[i + 2] == ':' && is_digit(s[i]) && is_digit(s[i + 1]) && is_digit(s[i + 3])
            && is_digit(s[i + 4]) && h < 24 && m < 60 {
            Some((h, m))
        } else {
            hm_window_from(s, i + 1)
        }
    }
}

/// The part-of-day words, in the order they are looked for.
pub open spec fn time_marker(j: int) -> Seq<char> {
    if j == 0 {
        "下午"@
    } else if j == 1 {
        "晚上"@
    } else if j == 2 {
        "上午"@
    } else if j == 3 {
        "早上"@
    } else {
        "凌晨"@
    }
}

/// A time after a part-of-day word: the first number after the word is the hour (plus 12 in
/// the afternoon and evening, 0 for 12 before dawn), and the first number before a `分` after
/// the word is the minute. When the first word found is followed by no number at all, no
/// time is found.
pub open spec fn marker_time_from(s: Seq<char>, j: int) -> Option<(int, int)>
    decreases 5 - j,
{
    if j < 0 || j >= 5 {
        None
    } else {
        match find(s, time_marker(j)) {
            None => marker_time_from(s, j + 1),
            Some(idx) => {
                let after = s.subrange(idx + time_marker(j).len(), s.len() as int);
                match first_cn_number(after) {
                    None => None,
                    Some(num) => {
                        let hour: int = if (j == 0 || j == 1) && num < 12 {
                            num + 12
                        } else if j == 4 && num == 12 {
                            0
                        } else {
                            num as int
                        };
                        let minute: int = match find(after, seq!['分']) {
                            Some(fi) => match first_cn_number(after.subrange(0, fi)) {
                                Some(v) => v as int,
                                None => 0,
                            },
                            None => 0,
                        };
                        if hour < 24 && minute < 60 {
                            Some((hour, minute))
                        } else {
                            marker_time_from(s, j + 1)
                        }
                    },
                }
            },
        }
    }
}

/// The time a description names, as `HH:MM`.
pub open spec fn find_time_spec(s: Seq<char>) -> Option<Seq<char>> {
    match hm_window_from(s, 0) {
        Some((h, m)) => Some(hm_text(h, m)),
        None => match marker_time_from(s, 0) {
            Some((h, m)) => Some(hm_text(h, m)),
            None => None,
        },
    }
}

/// An afternoon or evening hour is read on the 24-hour clock: when a description has no
/// `HH:MM` time, the first part-of-day word in it is `下午` (or `晚上`, with no `下午` in the
/// description), and the first number after that word is an hour `n` below 12 with no `分`
/// after it, the time found is `n + 12` o'clock.
pub proof fn lemma_afternoon_evening_hour(s: Seq<char>, w: Seq<char>, idx: int, n: u32)
    requires
        w == "下午"@ || (w == "晚上"@ && find(s, "下午"@) is None),
        hm_window_from(s, 0) is None,
        find(s, w) == Some(idx),
        first_cn_number(s.subrange(idx + 2, s.len() as int)) == Some(n),
        n < 12,
        find(s.subrange(idx + 2, s.len() as int), seq!['分']) is None,
    ensures
        find_time_spec(s) == Some(hm_text(n + 12, 0)),
{
    reveal_strlit("下午");
    reveal_strlit("晚上");
    assert(time_marker(0) == "下午"@);
    assert(time_marker(1) == "晚上"@);
    assert(w.len() == 2);
    if w == "下午"@ {
        assert(marker_time_from(s, 0) == Some((n + 12, 0int)));
    } else {
        assert(marker_time_from(s, 1) == Some((n + 12, 0int)));
        assert(marker_time_from(s, 0) == marker_time_from(s, 1));
    }
}

/// A morning or before-dawn hour is read as written, except twelve before dawn, which is
/// midnight: when a description has no `HH:MM` time, the first part-of-day word in it is
/// `上午`, `早上` or `凌晨` (no `下午` or `晚上`, and for the later words none of the earlier
/// ones), and the first number after it is an hour `n` below 24 with no `分` after it, the
/// time found is `n` o'clock, or 0 o'clock for `凌晨十二`.
pub proof fn lemma_morning_hour(s: Seq<char>, w: Seq<char>, idx: int, n: u32)
    requires
        w == "上午"@ || w == "早上"@ || w == "凌晨"@,
        find(s, "下午"@) is None,
        find(s, "晚上"@) is None,
        w == "早上"@ ==> find(s, "上午"@) is None,
        w == "凌晨"@ ==> find(s, "上午"@) is None && find(s, "早上"@) is None,
        hm_window_from(s, 0) is None,
        find(s, w) == Some(idx),
        first_cn_number(s.subrange(idx + 2, s.len() as int)) == Some(n),
        n < 24,
        find(s.subrange(idx + 2, s.len() as int), seq!['分']) is None,
    ensures
        find_time_spec(s) == Some(hm_text(if w == "凌晨"@ && n == 12 { 0 } else { n as int }, 0)),
{
    reveal_strlit("下午");
    reveal_strlit("晚上");
    reveal_strlit("上午");
    reveal_strlit("早上");
    reveal_strlit("凌晨");
    assert(time_marker(0) == "下午"@);
    assert(time_marker(1) == "晚上"@);
    assert(time_marker(2) == "上午"@);
    assert(time_marker(3) == "早上"@);
    assert(time_marker(4) == "凌晨"@);
    assert(w.len() == 2);
    let h: int = if w == "凌晨"@ && n == 12 { 0 } else { n as int };
    if w == "上午"@ {
        assert(marker_time_from(s, 2) == Some((h, 0int)));
    } else if w == "早上"@ {
        assert("早上"@ != "上午"@) by {
            assert("早上"@[0] != "上午"@[0]);
        }
        assert(marker_time_from(s, 3) == Some((h, 0int)));
        assert(marker_time_from(s, 2) == marker_time_from(s, 3));
    } else {
        assert("凌晨"@ != "上午"@ && "凌晨"@ != "早上"@) by {
            assert("凌晨"@[0] != "上午"@[0] && "凌晨"@[0] != "早上"@[0]);
        }
        assert(marker_time_from(s, 4) == Some((h, 0int)));
        assert(marker_time_from(s, 3) == marker_time_from(s, 4));
        assert(marker_time_from(s, 2) == marker_time_from(s, 3));
    }
    assert(marker_time_from(s, 1) == marker_time_from(s, 2));
    assert(marker_time_from(s, 0) == marker_time_from(s, 1));
}

fn hm_scan(s: &Vec<char>) -> (r: Option<(u32, u32)>)
    ensures
        r matches Some((h, m)) ==> hm_window_from(s@, 0) == Some((h as int, m as int)) && h < 24
            && m < 60,
        r is None ==> hm_window_from(s@, 0) is None,
{
    let mut i: usize = 0;
    while s.len() >= 5 && i <= s.len() - 5
        invariant
            hm_window_from(s@, i as int) == hm_window_from(s@, 0),
        decreases s.len() - i,
    {
        let a = s[i];
        let b = s[i + 1];
        let c = s[i + 3];
        let d = s[i + 4];
        if s[i + 2] == ':' && '0' <= a && a <= '9' && '0' <= b && b <= '9' && '0' <= c && c <= '9'
            && '0' <= d && d <= '9' {
            let h = (a as u32 - '0' as u32) * 10 + (b as u32 - '0' as u32);
            let m = (c as u32 - '0' as u32) * 10 + (d as u32 - '0' as u32);
            if h < 24 && m < 60 {
                return Some((h, m));
            }
        }
        i = i + 1;
    }
    None
}

fn time_marker_str(j: usize) -> (r: &'static str)
    requires
        j < 5,
    ensures
        r@ == time_marker(j as int),
{
    if j == 0 {
        "下午"
    } else if j == 1 {
        "晚上"
    } else if j == 2 {
        "上午"
    } else if j == 3 {
        "早上"
    } else {
        "凌晨"
    }
}

fn marker_scan(s: &Vec<char>) -> (r: Option<(u32, u32)>)
    ensures
        r matches Some((h, m)) ==> marker_time_from(s@, 0) == Some((h as int, m as int)) && h
            < 24 && m < 60,
        r is None ==> marker_time_from(s@, 0) is None,
{
    let fen = chars_of("分");
    proof {
        reveal_strlit("分");
        assert(fen@ =~= seq!['分']);
    }
    let mut j: usize = 0;
    while j < 5
        invariant
            j <= 5,
            fen@ == seq!['分'],
            marker_time_from(s@, j as int) == marker_time_from(s@, 0),
        decreases 5 - j,
    {
        let marker = chars_of(time_marker_str(j));
        match crate::text::find_chars(s, &marker) {
            None => {},
            Some(idx) => {
                proof {
                    crate::text::lemma_find_from_bounds(s@, marker@, 0);
                    assert(crate::text::match_at(s@, marker@, idx as int));
                    assert(idx + marker@.len() <= s@.len());
                }
                assert(idx + marker.len() <= s.len());
                let after = slice_chars(s, idx + marker.len(), s.len());
                let num = match first_cn_number_chars(&after) {
                    Some(n) => n,
                    None => return None,
                };
                let mut hour: u32 = num;
                if (j == 0 || j == 1) && hour < 12 {
                    hour = hour + 12;
                }
                if j == 4 && hour == 12 {
                    hour = 0;
                }
                let minute: u32 = match crate::text::find_chars(&after, &fen) {
                    Some(fi) => {
                        proof {
                            crate::text::lemma_find_from_bounds(after@, fen@, 0);
                            assert(crate::text::match_at(after@, fen@, fi as int));
                        }
                        assert(fi <= after.len());
                        let head = slice_chars(&after, 0, fi);
                        match first_cn_number_chars(&head) {
                            Some(v) => v,
                            None => 0,
                        }
                    },
                    None => 0,
                };
                if hour < 24 && minute < 60 {
                    return Some((hour, minute));
                }
            },
        }
        j = j + 1;
    }
    None
}

fn find_time_chars(s: &Vec<char>) -> (r: Option<Vec<char>>)
    ensures
        opt_chars_view(r) == find_time_spec(s@),
{
    match hm_scan(s) {
        Some((h, m)) => Some(crate::ics::hm_chars(h, m)),
        None => match marker_scan(s) {
            Some((h, m)) => Some(crate::ics::hm_chars(h, m)),
            None => None,
        },
    }
}

pub open spec fn opt_chars_view(o: Option<Vec<char>>) -> Option<Seq<char>> {
    match o {
        Some(v) => Some(v@),
        None => None,
    }
}

/// Finds the time a description names: `HH:MM`, or a number after a part-of-day word.
pub fn find_time(input: &str) -> (r: Option<String>)
    ensures
        opt_string_view(r) == find_time_spec(input@),
{
    let s = chars_of(input);
    match find_time_chars(&s) {
        Some(t) => Some(string_from_chars(&t)),
        None => None,
    }
}

// ------------------------------------------------------------------
// Reminders
// ------------------------------------------------------------------

/// The reminder a description asks for, in minutes before the event, as text: after `提前`,
/// a day is 1440, half an hour 30, an hour 60, otherwise the first number when minutes are
/// mentioned; empty when there is no `提前` or nothing matches.
pub open spec fn reminder_spec(s: Seq<char>) -> Seq<char> {
    match find(s, "提前"@) {
        None => seq![],
        Some(i) => {
            let t = s.subrange(i + "提前"@.len(), s.len() as int);
            if contains(t, "一天"@) || contains(t, "1天"@) || contains(t, "一日"@) {
                "1440"@
            } else if contains(t, "半小时"@) {
                "30"@
            } else if contains(t, "一小时"@) || contains(t, "1小时"@) {
                "60"@
            } else {
                match first_cn_number(t) {
                    Some(n) => if contains(t, "分钟"@) || contains(t, "分"@) {
                        decimal(n as nat)
                    } else {
                        seq![]
                    },
                    None => seq![],
                }
            }
        },
    }
}

fn reminder_chars(s: &Vec<char>) -> (r: Vec<char>)
    ensures
        r@ == reminder_spec(s@),
{
    let pat = chars_of("提前");
    match crate::text::find_chars(s, &pat) {
        None => Vec::new(),
        Some(i) => {
            proof {
                crate::text::lemma_find_from_bounds(s@, pat@, 0);
                assert(crate::text::match_at(s@, pat@, i as int));
                assert(i + pat@.len() <= s@.len());
            }
            assert(i + pat.len() <= s.len());
            let t = slice_chars(s, i + pat.len(), s.len());
            if contains_str(&t, "一天") || contains_str(&t, "1天") || contains_str(&t, "一日") {
                chars_of("1440")
            } else if contains_str(&t, "半小时") {
                chars_of("30")
            } else if contains_str(&t, "一小时") || contains_str(&t, "1小时") {
                chars_of("60")
            } else {
                match first_cn_number_chars(&t) {
                    Some(n) => if contains_str(&t, "分钟") || contains_str(&t, "分") {
                        decimal_u64(n as u64)
                    } else {
                        Vec::new()
                    },
                    None => Vec::new(),
                }
            }
        },
    }
}

/// Finds the reminder a description asks for, in minutes before the event.
pub fn find_reminder(input: &str) -> (r: String)
    ensures
        r@ == reminder_spec(input@),
{
    let s = chars_of(input);
    let r = reminder_chars(&s);
    string_from_chars(&r)
}

// ------------------------------------------------------------------
// Titles
// ------------------------------------------------------------------

/// The description without the request words and relative day words.
pub open spec fn strip_keywords(s: Seq<char>) -> Seq<char> {
    let t = s;
    let t = replace(t, "提醒我"@, seq![]);
    let t = replace(t, "提醒"@, seq![]);
    let t = replace(t, "帮我"@, seq![]);
    let t = replace(t, "请"@, seq![]);
    let t = replace(t, "安排"@, seq![]);
    let t = replace(t, "创建"@, seq![]);
    let t = replace(t, "新建"@, seq![]);
    let t = replace(t, "今天"@, seq![]);
    let t = replace(t, "明天"@, seq![]);
    let t = replace(t, "后天"@, seq![]);
    let t = replace(t, "大后天"@, seq![]);
    t
}

fn strip_keywords_chars(s: &Vec<char>) -> (r: Vec<char>)
    ensures
        r@ == strip_keywords(s@),
{
    proof {
        reveal_strlit("提醒我");
        reveal_strlit("提醒");
        reveal_strlit("帮我");
        reveal_strlit("请");
        reveal_strlit("安排");
        reveal_strlit("创建");
        reveal_strlit("新建");
        reveal_strlit("今天");
        reveal_strlit("明天");
        reveal_strlit("后天");
        reveal_strlit("大后天");
        reveal_strlit("");
        assert(""@ =~= Seq::<char>::empty());
    }
    let t = slice_chars(s, 0, s.len());
    assert(t@ =~= s@);
    let t = replace_str(&t, "提醒我", "");
    let t = replace_str(&t, "提醒", "");
    let t = replace_str(&t, "帮我", "");
    let t = replace_str(&t, "请", "");
    let t = replace_str(&t, "安排", "");
    let t = replace_str(&t, "创建", "");
    let t = replace_str(&t, "新建", "");
    let t = replace_str(&t, "今天", "");
    let t = replace_str(&t, "明天", "");
    let t = replace_str(&t, "后天", "");
    let t = replace_str(&t, "大后天", "");
    t
}

/// Removes `下周` and the character after it.
pub open spec fn drop_next_week(t: Seq<char>) -> Seq<char> {
    match find(t, "下周"@) {
        Some(i) => {
            let e = i + "下周"@.len();
            let end = if e < t.len() {
                e + 1
            } else {
                t.len() as int
            };
            t.subrange(0, i) + t.subrange(end, t.len() as int)
        },
        None => t,
    }
}

fn drop_next_week_chars(t: &Vec<char>) -> (r: Vec<char>)
    ensures
        r@ == drop_next_week(t@),
{
    let pat = chars_of("下周");
    match crate::text::find_chars(t, &pat) {
        Some(i) => {
            proof {
                crate::text::lemma_find_from_bounds(t@, pat@, 0);
                assert(crate::text::match_at(t@, pat@, i as int));
                assert(i + pat@.len() <= t@.len());
            }
            assert(i + pat.len() <= t.len());
            let e = i + pat.len();
            let end = if e < t.len() {
                e + 1
            } else {
                t.len()
            };
            let mut out = slice_chars(t, 0, i);
            let tail = slice_chars(t, end, t.len());
            append_all(&mut out, &tail);
            out
        },
        None => slice_chars_all(t),
    }
}

fn slice_chars_all(t: &Vec<char>) -> (r: Vec<char>)
    ensures
        r@ == t@,
{
    let r = slice_chars(t, 0, t.len());
    assert(r@ =~= t@);
    r
}

/// Removes a part-of-day word through the following `点`, and through the next `分` after
/// that if there is one. Nothing changes without a `点` after the word.
pub open spec fn drop_marker_span(t: Seq<char>, m: Seq<char>) -> Seq<char> {
    match find(t, m) {
        None => t,
        Some(idx) => {
            let a = idx + m.len();
            let after = t.subrange(a, t.len() as int);
            match find(after, seq!['点']) {
                None => t,
                Some(pi) => {
                    let e1 = a + pi + 1;
                    let ap = t.subrange(e1, t.len() as int);
                    let end = match find(ap, seq!['分']) {
                        Some(mi) => e1 + mi + 1,
                        None => e1,
                    };
                    t.subrange(0, idx) + t.subrange(end, t.len() as int)
                },
            }
        },
    }
}

pub open spec fn drop_markers(t: Seq<char>, n: int) -> Seq<char>
    decreases n,
{
    if n <= 0 {
        t
    } else {
        drop_marker_span(drop_markers(t, n - 1), time_marker(n - 1))
    }
}

fn find_bounded(t: &Vec<char>, p: &Vec<char>) -> (r: Option<usize>)
    ensures
        r matches Some(k) ==> find(t@, p@) == Some(k as int) && k + p@.len() <= t@.len(),
        r is None ==> find(t@, p@) is None,
{
    let r = crate::text::find_chars(t, p);
    proof {
        crate::text::lemma_find_from_bounds(t@, p@, 0);
    }
    match r {
        Some(k) => {
            assert(crate::text::match_at(t@, p@, k as int));
            Some(k)
        },
        None => None,
    }
}

fn drop_marker_span_chars(t: &Vec<char>, m: &Vec<char>) -> (r: Vec<char>)
    ensures
        r@ == drop_marker_span(t@, m@),
{
    let dian = chars_of("点");
    let fen = chars_of("分");
    proof {
        reveal_strlit("点");
        reveal_strlit("分");
        assert(dian@ =~= seq!['点']);
        assert(fen@ =~= seq!['分']);
    }
    match find_bounded(t, m) {
        None => slice_chars_all(t),
        Some(idx) => {
            assert(idx + m.len() <= t.len());
            let a = idx + m.len();
            let after = slice_chars(t, a, t.len());
            match find_bounded(&after, &dian) {
                None => slice_chars_all(t),
                Some(pi) => {
                    let e1 = a + pi + 1;
                    let ap = slice_chars(t, e1, t.len());
                    let end = match find_bounded(&ap, &fen) {
                        Some(mi) => e1 + mi + 1,
                        None => e1,
                    };
                    let mut out = slice_chars(t, 0, idx);
                    let tail = slice_chars(t, end, t.len());
                    append_all(&mut out, &tail);
                    out
                },
            }
        },
    }
}

fn drop_markers_chars(t: &Vec<char>) -> (r: Vec<char>)
    ensures
        r@ == drop_markers(t@, 5),
{
    let mut cur = slice_chars_all(t);
    let mut j: usize = 0;
    while j < 5
        invariant
            j <= 5,
            cur@ == drop_markers(t@, j as int),
        decreases 5 - j,
    {
        let m = chars_of(time_marker_str(j));
        cur = drop_marker_span_chars(&cur, &m);
        j = j + 1;
    }
    cur
}

/// The text before `提前`.
pub open spec fn cut_reminder(t: Seq<char>) -> Seq<char> {
    match find(t, "提前"@) {
        Some(i) => t.subrange(0, i),
        None => t,
    }
}

fn cut_reminder_chars(t: &Vec<char>) -> (r: Vec<char>)
    ensures
        r@ == cut_reminder(t@),
{
    let pat = chars_of("提前");
    match find_bounded(t, &pat) {
        Some(i) => slice_chars(t, 0, i),
        None => slice_chars_all(t),
    }
}

/// Punctuation, spaces and `的` that are trimmed from both ends of a title.
pub open spec fn is_title_edge(c: char) -> bool {
    c == ' ' || c == '，' || c == ',' || c == '。' || c == '；' || c == ';' || c == '：' || c
        == ':' || c == '的'
}

pub open spec fn edge_lo(t: Seq<char>, i: int) -> int
    decreases t.len() - i,
{
    if i < 0 || i >= t.len() {
        t.len() as int
    } else if is_title_edge(t[i]) {
        edge_lo(t, i + 1)
    } else {
        i
    }
}

pub open spec fn edge_hi(t: Seq<char>, j: int) -> int
    decreases j,
{
    if j <= 0 || j > t.len() {
        0
    } else if is_title_edge(t[j - 1]) {
        edge_hi(t, j - 1)
    } else {
        j
    }
}

/// The text without title edge characters at either end (`trim_matches`).
pub open spec fn trim_title(t: Seq<char>) -> Seq<char> {
    let lo = edge_lo(t, 0);
    let hi = edge_hi(t, t.len() as int);
    if lo < hi {
        t.subrange(lo, hi)
    } else {
        seq![]
    }
}

proof fn lemma_edge_bounds(t: Seq<char>, i: int, j: int)
    requires
        0 <= i <= t.len(),
        0 <= j <= t.len(),
    ensures
        i <= edge_lo(t, i) <= t.len(),
        0 <= edge_hi(t, j) <= j,
    decreases t.len() - i + j,
{
    if i < t.len() && is_title_edge(t[i]) {
        lemma_edge_bounds(t, i + 1, j);
    } else if j > 0 && is_title_edge(t[j - 1]) {
        lemma_edge_bounds(t, i, j - 1);
    } else if i < t.len() && j > 0 {
    }
    if j > 0 && is_title_edge(t[j - 1]) {
        lemma_edge_bounds(t, i, j - 1);
    }
}

fn is_title_edge_exec(c: char) -> (b: bool)
    ensures
        b == is_title_edge(c),
{
    c == ' ' || c == '，' || c == ',' || c == '。' || c == '；' || c == ';' || c == '：' || c
        == ':' || c == '的'
}

fn trim_title_chars(t: &Vec<char>) -> (r: Vec<char>)
    ensures
        r@ == trim_title(t@),
{
    let mut lo: usize = 0;
    while lo < t.len() && is_title_edge_exec(t[lo])
        invariant
            lo <= t.len(),
            edge_lo(t@, lo as int) == edge_lo(t@, 0),
        decreases t.len() - lo,
    {
        lo = lo + 1;
    }
    let mut hi: usize = t.len();
    while hi > 0 && is_title_edge_exec(t[hi - 1])
        invariant
            hi <= t.len(),
            edge_hi(t@, hi as int) == edge_hi(t@, t@.len() as int),
        decreases hi,
    {
        hi = hi - 1;
    }
    if lo < hi {
        slice_chars(t, lo, hi)
    } else {
        Vec::new()
    }
}

/// The whitespace-separated words of a text (`split_whitespace`), from index `i` with the
/// word `cur` begun.
pub open spec fn words_from(t: Seq<char>, i: int, cur: Seq<char>) -> Seq<Seq<char>>
    decreases t.len() - i,
{
    if i < 0 || i >= t.len() {
        if cur.len() > 0 {
            seq![cur]
        } else {
            seq![]
        }
    } else if is_ws(t[i]) {
        (if cur.len() > 0 {
            seq![cur]
        } else {
            seq![]
        }) + words_from(t, i + 1, seq![])
    } else {
        words_from(t, i + 1, cur.push(t[i]))
    }
}

pub open spec fn words(t: Seq<char>) -> Seq<Seq<char>> {
    words_from(t, 0, seq![])
}

pub fn words_chars(t: &Vec<char>) -> (r: Vec<Vec<char>>)
    ensures
        views(r@) == words(t@),
{
    let mut out: Vec<Vec<char>> = Vec::new();
    let mut cur: Vec<char> = Vec::new();
    let mut i: usize = 0;
    while i < t.len()
        invariant
            i <= t.len(),
            views(out@) + words_from(t@, i as int, cur@) == words(t@),
        decreases t.len() - i,
    {
        if crate::text::is_whitespace(t[i]) {
            let ghost before = views(out@);
            if cur.len() > 0 {
                let w = cur;
                out.push(w);
                assert(views(out@) =~= before + seq![w@]);
                assert(before + words_from(t@, i as int, w@) =~= views(out@) + words_from(
                    t@,
                    i + 1,
                    seq![],
                ));
            } else {
                assert(before + words_from(t@, i as int, cur@) =~= views(out@) + words_from(
                    t@,
                    i + 1,
                    seq![],
                ));
            }
            cur = Vec::new();
            assert(cur@ =~= Seq::<char>::empty());
        } else {
            cur.push(t[i]);
        }
        i = i + 1;
    }
    let ghost before = views(out@);
    if cur.len() > 0 {
        out.push(cur);
        assert(views(out@) =~= before + words_from(t@, i as int, cur@));
    } else {
        assert(views(out@) =~= before + words_from(t@, i as int, cur@));
    }
    out
}

/// The title left of a description once dates, times, reminders and request words are
/// removed, trimmed of edge punctuation and with runs of whitespace collapsed to one space.
pub open spec fn clean_title_spec(s: Seq<char>, date: Date, time: Seq<char>, reminder: Seq<char>) -> Seq<char> {
    let t1 = strip_keywords(s);
    let t2 = drop_next_week(t1);
    let t3 = replace(t2, iso_date_text(date), seq![]);
    let t4 = if time.len() > 0 {
        replace(t3, time, seq![])
    } else {
        t3
    };
    let t5 = drop_markers(t4, 5);
    let t6 = cut_reminder(t5);
    let t7 = if reminder.len() > 0 {
        replace(t6, reminder, seq![])
    } else {
        t6
    };
    join(words(trim_title(t7)), " "@)
}

fn clean_title_chars(s: &Vec<char>, date: &Date, time: &Vec<char>, reminder: &Vec<char>) -> (r: Vec<char>)
    requires
        date.wf(),
    ensures
        r@ == clean_title_spec(s@, *date, time@, reminder@),
{
    let empty: Vec<char> = Vec::new();
    let t1 = strip_keywords_chars(s);
    let t2 = drop_next_week_chars(&t1);
    let iso = date.iso_chars();
    let t3 = replace_chars(&t2, &iso, &empty);
    let t4 = if time.len() > 0 {
        replace_chars(&t3, time, &empty)
    } else {
        t3
    };
    let t5 = drop_markers_chars(&t4);
    let t6 = cut_reminder_chars(&t5);
    let t7 = if reminder.len() > 0 {
        replace_chars(&t6, reminder, &empty)
    } else {
        t6
    };
    let t8 = trim_title_chars(&t7);
    let ws = words_chars(&t8);
    let sp = chars_of(" ");
    join_chars(&ws, &sp)
}

// ------------------------------------------------------------------
// Drafts
// ------------------------------------------------------------------

/// A draft event read from a description, for the user to confirm.
#[derive(Debug, Clone)]
pub struct Draft {
    pub title: String,
    pub date: String,
    pub time: String,
    pub reminder: String,
    pub explanation: String,
}

pub struct DraftModel {
    pub title: Seq<char>,
    pub date: Seq<char>,
    pub time: Seq<char>,
    pub reminder: Seq<char>,
    pub explanation: Seq<char>,
}

impl View for Draft {
    type V = DraftModel;

    open spec fn view(&self) -> DraftModel {
        DraftModel {
            title: self.title@,
            date: self.date@,
            time: self.time@,
            reminder: self.reminder@,
            explanation: self.explanation@,
        }
    }
}

/// What a description reads as: an error for an empty description or when no title is left,
/// otherwise the title, the date (today when none is named), the time and reminder (empty
/// when not named) and a sentence explaining what was recognised.
pub open spec fn parse_spec(input: Seq<char>, today: Date) -> Result<DraftModel, Seq<char>> {
    let s = trim(input);
    if s.len() == 0 {
        Err("请输入一句日程描述"@)
    } else {
        let date = match find_date_spec(s, today) {
            Some(d) => d,
            None => today,
        };
        let time = match find_time_spec(s) {
            Some(t) => t,
            None => seq![],
        };
        let reminder = reminder_spec(s);
        let title = clean_title_spec(s, date, time, reminder);
        if title.len() == 0 {
            Err("没有识别出日程标题，请补充要做的事情"@)
        } else {
            let explanation = "识别日期："@ + iso_date_text(date) + (if time.len() > 0 {
                "，时间："@ + time
            } else {
                seq![]
            }) + (if reminder.len() > 0 {
                "，提醒："@ + reminder + " 分钟前"@
            } else {
                seq![]
            });
            Ok(
                DraftModel {
                    title,
                    date: iso_date_text(date),
                    time,
                    reminder,
                    explanation,
                },
            )
        }
    }
}

pub open spec fn draft_result_view(r: Result<Draft, String>) -> Result<DraftModel, Seq<char>> {
    match r {
        Ok(d) => Ok(d@),
        Err(e) => Err(e@),
    }
}

proof fn lemma_dashed_from_wf(s: Seq<char>, i: int)
    ensures
        dashed_from(s, i) matches Some(d) ==> d.wf(),
    decreases s.len() - i,
{
    if 0 <= i && i + 10 <= s.len() {
        lemma_dashed_from_wf(s, i + 1);
    }
}

proof fn lemma_find_date_wf(s: Seq<char>, today: Date)
    requires
        today.wf(),
        relative_in_range(s, today),
    ensures
        find_date_spec(s, today) matches Some(d) ==> d.wf(),
{
    if let Some(k) = relative_offset(s, today) {
        if k >= 0 {
            crate::date::lemma_advance(today, k as nat);
        }
    }
    lemma_dashed_from_wf(s, 0);
}

/// Whether a description leaves room for its relative day (see `relative_in_range`), which
/// `parse` requires.
pub fn relative_fits(input: &str, today: &Date) -> (b: bool)
    requires
        today.wf(),
    ensures
        b == relative_in_range(trim(input@), *today),
{
    let s = trim_str(input);
    match relative_offset_exec(&s, today) {
        None => true,
        Some(k) => {
            let n = today.day_number();
            proof {
                crate::date::lemma_dn_range(*today);
            }
            Date::from_day_number(n + k).is_some()
        },
    }
}

/// Reads a description such as `明天下午两点和供应商开会，提前一天提醒我` into a draft.
pub fn parse(input: &str, today: &Date) -> (r: Result<Draft, String>)
    requires
        today.wf(),
        relative_in_range(trim(input@), *today),
    ensures
        draft_result_view(r) == parse_spec(input@, *today),
{
    let s = trim_str(input);
    if s.len() == 0 {
        return Err("请输入一句日程描述".to_string());
    }
    let date = match find_date_chars(&s, today) {
        Some(d) => d,
        None => *today,
    };
    proof {
        lemma_find_date_wf(s@, *today);
    }
    assert(date.wf());
    let time = match find_time_chars(&s) {
        Some(t) => t,
        None => Vec::new(),
    };
    let reminder = reminder_chars(&s);
    let title = clean_title_chars(&s, &date, &time, &reminder);
    if title.len() == 0 {
        return Err("没有识别出日程标题，请补充要做的事情".to_string());
    }
    let iso = date.iso_chars();
    let mut explanation = chars_of("识别日期：");
    append_all(&mut explanation, &iso);
    let ghost e1 = explanation@;
    if time.len() > 0 {
        append_str(&mut explanation, "，时间：");
        append_all(&mut explanation, &time);
    } else {
        assert(explanation@ =~= e1 + Seq::<char>::empty());
    }
    let ghost e2 = explanation@;
    if reminder.len() > 0 {
        append_str(&mut explanation, "，提醒：");
        append_all(&mut explanation, &reminder);
        append_str(&mut explanation, " 分钟前");
    } else {
        assert(explanation@ =~= e2 + Seq::<char>::empty());
    }
    let ghost sp = parse_spec(input@, *today);
    assert(s@ == trim(input@));
    assert(date == (match find_date_spec(s@, *today) {
        Some(d) => d,
        None => *today,
    }));
    assert(time@ == (match find_time_spec(s@) {
        Some(t) => t,
        None => Seq::<char>::empty(),
    }));
    assert(title@ == clean_title_spec(s@, date, time@, reminder@));
    assert(sp is Ok);
    assert(sp->Ok_0.title == title@);
    assert(sp->Ok_0.explanation == explanation@);
    Ok(
        Draft {
            title: string_from_chars(&title),
            date: string_from_chars(&iso),
            time: string_from_chars(&time),
            reminder: string_from_chars(&reminder),
            explanation: string_from_chars(&explanation),
        },
    )
}

} // verus!
