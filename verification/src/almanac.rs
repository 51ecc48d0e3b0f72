//! The almanac of a day: its lunar date, the stem-and-branch name of the day, and the
//! traditional guidance that the `lunar_rust` tables give (duty star, day spirit, what the
//! day suits and what it should avoid, the clashing zodiac and the direction of sha).
//!
//! The stem and branch of a day are computed from the count of days to 2000-01-01, a 戊午
//! day, which also gives 甲子 for 2024-01-01. The guidance is folk tradition, not advice.

use crate::date::{iso_date_text, Date};
use crate::text::{append_all, append_str, chars_of, join, join_chars, string_from_chars, views};
use lunar_rust::lunar::LunarRefHelper;
use lunar_rust::solar::SolarRefHelper;
use vstd::prelude::*;

verus! {

/// The ten heavenly stems.
pub open spec fn stem_text(k: int) -> Seq<char> {
    if k == 0 {
        "甲"@
    } else if k == 1 {
        "乙"@
    } else if k == 2 {
        "丙"@
    } else if k == 3 {
        "丁"@
    } else if k == 4 {
        "戊"@
    } else if k == 5 {
        "己"@
    } else if k == 6 {
        "庚"@
    } else if k == 7 {
        "辛"@
    } else if k == 8 {
        "壬"@
    } else {
        "癸"@
    }
}

/// The twelve earthly branches.
pub open spec fn branch_text(k: int) -> Seq<char> {
    if k == 0 {
        "子"@
    } else if k == 1 {
        "丑"@
    } else if k == 2 {
        "寅"@
    } else if k == 3 {
        "卯"@
    } else if k == 4 {
        "辰"@
    } else if k == 5 {
        "巳"@
    } else if k == 6 {
        "午"@
    } else if k == 7 {
        "未"@
    } else if k == 8 {
        "申"@
    } else if k == 9 {
        "酉"@
    } else if k == 10 {
        "戌"@
    } else {
        "亥"@
    }
}

fn stem(k: i64) -> (r: &'static str)
    requires
        0 <= k < 10,
    ensures
        r@ == stem_text(k as int),
{
    if k == 0 {
        "甲"
    } else if k == 1 {
        "乙"
    } else if k == 2 {
        "丙"
    } else if k == 3 {
        "丁"
    } else if k == 4 {
        "戊"
    } else if k == 5 {
        "己"
    } else if k == 6 {
        "庚"
    } else if k == 7 {
        "辛"
    } else if k == 8 {
        "壬"
    } else {
        "癸"
    }
}

fn branch(k: i64) -> (r: &'static str)
    requires
        0 <= k < 12,
    ensures
        r@ == branch_text(k as int),
{
    if k == 0 {
        "子"
    } else if k == 1 {
        "丑"
    } else if k == 2 {
        "寅"
    } else if k == 3 {
        "卯"
    } else if k == 4 {
        "辰"
    } else if k == 5 {
        "巳"
    } else if k == 6 {
        "午"
    } else if k == 7 {
        "未"
    } else if k == 8 {
        "申"
    } else if k == 9 {
        "酉"
    } else if k == 10 {
        "戌"
    } else {
        "亥"
    }
}

/// The day number of 2000-01-01.
pub open spec fn reference_dn() -> int {
    (Date { year: 2000, month: 1, day: 1 }).dn()
}

/// The stem and branch of a day: the count of days from 2000-01-01, plus 54, taken modulo
/// 10 and 12.
pub open spec fn day_ganzhi_text(date: Date) -> Seq<char> {
    let k = date.dn() - reference_dn() + 54;
    stem_text(k % 10) + branch_text(k % 12)
}

pub fn day_ganzhi(date: &Date) -> (r: String)
    requires
        date.wf(),
    ensures
        r@ == day_ganzhi_text(*date),
{
    let reference = Date { year: 2000, month: 1, day: 1 };
    proof {
        crate::date::lemma_dn_range(*date);
    }
    let k = date.days_since(&reference) + 54;
    assert(k + 120_000_000 > 0) by {
        assert(reference.wf());
        crate::date::lemma_dn_range(reference);
        assert(crate::date::min_day_number() >= -100_000_000);
        assert(crate::date::max_day_number() <= 100_000_000);
    }
    let kk: u64 = (k + 120_000_000) as u64;
    let sk: i64 = (kk % 10) as i64;
    let bk: i64 = (kk % 12) as i64;
    proof {
        vstd::arithmetic::div_mod::lemma_mod_multiples_vanish(12_000_000, k as int, 10);
        vstd::arithmetic::div_mod::lemma_mod_multiples_vanish(10_000_000, k as int, 12);
        assert(10 * 12_000_000 + k == k + 120_000_000);
        assert(12 * 10_000_000 + k == k + 120_000_000);
    }
    assert(sk == (k as int) % 10);
    assert(bk == (k as int) % 12);
    let mut v = chars_of(stem(sk));
    append_str(&mut v, branch(bk));
    string_from_chars(&v)
}

/// What the `lunar_rust` tables give for a day: what it suits and what it should avoid (as
/// lists), the day's stem and branch, its duty star, its day spirit and that spirit's luck,
/// the zodiac it clashes with, and the direction of sha.
pub struct DayTables {
    pub suitable: Vec<String>,
    pub avoid: Vec<String>,
    pub gan_zhi: String,
    pub zhi_xing: String,
    pub tian_shen: String,
    pub tian_shen_luck: String,
    pub chong: String,
    pub sha: String,
}

pub struct DayTablesModel {
    pub suitable: Seq<Seq<char>>,
    pub avoid: Seq<Seq<char>>,
    pub gan_zhi: Seq<char>,
    pub zhi_xing: Seq<char>,
    pub tian_shen: Seq<char>,
    pub tian_shen_luck: Seq<char>,
    pub chong: Seq<char>,
    pub sha: Seq<char>,
}

pub open spec fn strings_view(v: Seq<String>) -> Seq<Seq<char>> {
    Seq::new(v.len(), |i: int| v[i]@)
}

impl View for DayTables {
    type V = DayTablesModel;

    open spec fn view(&self) -> DayTablesModel {
        DayTablesModel {
            suitable: strings_view(self.suitable@),
            avoid: strings_view(self.avoid@),
            gan_zhi: self.gan_zhi@,
            zhi_xing: self.zhi_xing@,
            tian_shen: self.tian_shen@,
            tian_shen_luck: self.tian_shen_luck@,
            chong: self.chong@,
            sha: self.sha@,
        }
    }
}

/// What `lunar_rust` gives for the solar day `year-month-day`.
pub uninterp spec fn lunar_rust_day(year: int, month: int, day: int) -> DayTablesModel;

/// Calls `lunar_rust::solar::from_ymd(year, month, day).get_lunar()` and reads the day's
/// guidance from it (`get_day_yi`, `get_day_ji`, `get_day_in_gan_zhi`, `get_zhi_xing`,
/// `get_day_tian_shen`, `get_day_tian_shen_luck`, `get_chong_sheng_xiao`, `get_sha`). The
/// contract claims only that the result is what the tables give for that day, a function of
/// the date alone. `lunar_rust` reads a day before 1582-10-15 as a Julian-calendar day, while
/// a `Date` is Gregorian; its leap-month tables end with the year 9999. `requires` keeps to
/// valid days of the Gregorian years 1583 to 9999, where both name the same day and the
/// crate's day count `y * 372 + m * 31 + d` stays far inside `i64`.
#[verifier::external_body]
fn day_tables(year: i64, month: i64, day: i64) -> (r: DayTables)
    requires
        1583 <= year <= 9999,
        1 <= month <= 12,
        1 <= day <= crate::date::days_in_month(year as int, month as int),
    ensures
        r@ == lunar_rust_day(year as int, month as int, day as int),
{
    let lunar = lunar_rust::solar::from_ymd(year, month, day).get_lunar();
    DayTables {
        suitable: lunar.get_day_yi(None),
        avoid: lunar.get_day_ji(None),
        gan_zhi: lunar.get_day_in_gan_zhi(),
        zhi_xing: lunar.get_zhi_xing(),
        tian_shen: lunar.get_day_tian_shen(),
        tian_shen_luck: lunar.get_day_tian_shen_luck(),
        chong: lunar.get_chong_sheng_xiao(),
        sha: lunar.get_sha(),
    }
}

/// A day's almanac.
pub struct AlmanacInfo {
    pub solar_date: String,
    pub lunar_full_text: String,
    pub day_ganzhi: String,
    pub day_meta: String,
    pub suitable: String,
    pub avoid: String,
    pub clash: String,
}

/// The first eight items of a list joined with ` · `.
pub open spec fn first_eight(items: Seq<Seq<char>>) -> Seq<char> {
    join(if items.len() > 8 {
        items.take(8)
    } else {
        items
    }, " · "@)
}

/// `日柱 日 · 值星 · 天神吉凶`.
pub open spec fn day_meta_text(t: DayTablesModel) -> Seq<char> {
    t.gan_zhi + "日 · "@ + t.zhi_xing + " · "@ + t.tian_shen + t.tian_shen_luck
}

/// `冲生肖 · 煞方位`.
pub open spec fn clash_text(t: DayTablesModel) -> Seq<char> {
    "冲"@ + t.chong + " · 煞"@ + t.sha
}

fn first_eight_chars(items: &Vec<String>) -> (r: Vec<char>)
    ensures
        r@ == first_eight(strings_view(items@)),
{
    let n: usize = if items.len() > 8 {
        8
    } else {
        items.len()
    };
    let mut pieces: Vec<Vec<char>> = Vec::new();
    let mut i: usize = 0;
    while i < n
        invariant
            i <= n,
            n <= items.len(),
            views(pieces@) == strings_view(items@).take(i as int),
        decreases n - i,
    {
        let c = chars_of(items[i].as_str());
        let ghost before = views(pieces@);
        pieces.push(c);
        assert(views(pieces@) =~= before.push(c@));
        assert(strings_view(items@).take(i + 1) =~= strings_view(items@).take(i as int).push(
            items@[i as int]@,
        ));
        i = i + 1;
    }
    assert(strings_view(items@).take(n as int) =~= (if strings_view(items@).len() > 8 {
        strings_view(items@).take(8)
    } else {
        strings_view(items@)
    }));
    let sep = chars_of(" · ");
    join_chars(&pieces, &sep)
}

/// The years the almanac covers: the Gregorian years from 1583 to 9999 (see `day_tables`).
pub open spec fn almanac_year(year: int) -> bool {
    1583 <= year <= 9999
}

/// The almanac of a valid day in the years the tables cover (`almanac_year`).
pub fn describe(date: &Date) -> (r: AlmanacInfo)
    requires
        date.wf(),
        almanac_year(date.year as int),
    ensures
        ({
            let t = lunar_rust_day(date.year as int, date.month as int, date.day as int);
            &&& r.solar_date@ == iso_date_text(*date)
            &&& r.lunar_full_text@ == crate::lunar::full_text_of(*date)
            &&& r.day_ganzhi@ == day_ganzhi_text(*date)
            &&& r.day_meta@ == day_meta_text(t)
            &&& r.suitable@ == first_eight(t.suitable)
            &&& r.avoid@ == first_eight(t.avoid)
            &&& r.clash@ == clash_text(t)
        }),
{
    let t = day_tables(date.year as i64, date.month as i64, date.day as i64);
    let suitable = first_eight_chars(&t.suitable);
    let avoid = first_eight_chars(&t.avoid);
    let mut meta = chars_of(t.gan_zhi.as_str());
    append_str(&mut meta, "日 · ");
    append_str(&mut meta, t.zhi_xing.as_str());
    append_str(&mut meta, " · ");
    append_str(&mut meta, t.tian_shen.as_str());
    append_str(&mut meta, t.tian_shen_luck.as_str());
    let mut clash = chars_of("冲");
    append_str(&mut clash, t.chong.as_str());
    append_str(&mut clash, " · 煞");
    append_str(&mut clash, t.sha.as_str());
    AlmanacInfo {
        solar_date: date.to_iso_string(),
        lunar_full_text: crate::lunar::full_text(date),
        day_ganzhi: day_ganzhi(date),
        day_meta: string_from_chars(&meta),
        suitable: string_from_chars(&suitable),
        avoid: string_from_chars(&avoid),
        clash: string_from_chars(&clash),
    }
}

} // verus!
