//! Chinese lunisolar calendar labels for calendar cells, computed by the
//! `chinese-lunisolar-calendar` crate.

use crate::date::Date;
use crate::text::{chars_of, eq_str, string_from_chars};
use vstd::prelude::*;

verus! {

/// The lunar month name, lunar day name and full lunisolar text that
/// `chinese-lunisolar-calendar` gives for a solar year, month and day.
pub uninterp spec fn lunisolar_of(year: int, month: int, day: int) -> Option<
    (Seq<char>, Seq<char>, Seq<char>),
>;

/// Calls `SolarDate::from_ymd`, `LunisolarDate::from_solar_date` and the `Display` of the
/// lunar month, the lunar day and the whole lunisolar date. The contract claims only that
/// the result is the named lunisolar reading of the arguments (`None` where the crate
/// reports the date unsupported); what the month and day names are is not stated.
#[verifier::external_body]
fn lunisolar_texts(year: u16, month: u8, day: u8) -> (r: Option<(String, String, String)>)
    ensures
        match r {
            Some((m, d, f)) => lunisolar_of(year as int, month as int, day as int) == Some(
                (m@, d@, f@),
            ),
            None => lunisolar_of(year as int, month as int, day as int) is None,
        },
{
    let solar = chinese_lunisolar_calendar::SolarDate::from_ymd(year, month, day).ok()?;
    let lunisolar = chinese_lunisolar_calendar::LunisolarDate::from_solar_date(solar).ok()?;
    Some(
        (
            lunisolar.to_lunar_month().to_string(),
            lunisolar.to_lunar_day().to_string(),
            lunisolar.to_string(),
        ),
    )
}

/// The lunisolar reading of a date; years outside `u16` are unsupported.
pub open spec fn lunar_of_date(date: Date) -> Option<(Seq<char>, Seq<char>, Seq<char>)> {
    if 0 <= date.year <= 65535 {
        lunisolar_of(date.year as int, date.month as int, date.day as int)
    } else {
        None
    }
}

fn to_lunisolar(date: &Date) -> (r: Option<(Vec<char>, Vec<char>, Vec<char>)>)
    requires
        date.wf(),
    ensures
        match r {
            Some((m, d, f)) => lunar_of_date(*date) == Some((m@, d@, f@)),
            None => lunar_of_date(*date) is None,
        },
{
    if date.year < 0 || date.year > 65535 {
        return None;
    }
    match lunisolar_texts(date.year as u16, date.month as u8, date.day as u8) {
        Some((m, d, f)) => Some((chars_of(m.as_str()), chars_of(d.as_str()), chars_of(f.as_str()))),
        None => None,
    }
}

/// The short cell text: the month name on the first lunar day, otherwise the day name;
/// empty where the date is unsupported.
pub open spec fn short_label_text(date: Date) -> Seq<char> {
    match lunar_of_date(date) {
        Some((m, d, _)) => if d == "初一"@ {
            m
        } else {
            d
        },
        None => seq![],
    }
}

pub fn short_label(date: &Date) -> (s: String)
    requires
        date.wf(),
    ensures
        s@ == short_label_text(*date),
{
    match to_lunisolar(date) {
        Some((m, d, _)) => {
            if eq_str(&d, "初一") {
                string_from_chars(&m)
            } else {
                string_from_chars(&d)
            }
        },
        None => String::new(),
    }
}

/// The full lunisolar text; empty where the date is unsupported.
pub open spec fn full_text_of(date: Date) -> Seq<char> {
    match lunar_of_date(date) {
        Some((_, _, f)) => f,
        None => seq![],
    }
}

pub fn full_text(date: &Date) -> (s: String)
    requires
        date.wf(),
    ensures
        s@ == full_text_of(*date),
{
    match to_lunisolar(date) {
        Some((_, _, f)) => string_from_chars(&f),
        None => String::new(),
    }
}

/// Traditional festivals by lunar month and day.
pub open spec fn festival_of(m: Seq<char>, d: Seq<char>) -> Option<Seq<char>> {
    if m == "正月"@ && d == "初一"@ {
        Some("春节"@)
    } else if m == "正月"@ && d == "十五"@ {
        Some("元宵"@)
    } else if m == "五月"@ && d == "初五"@ {
        Some("端午"@)
    } else if m == "七月"@ && d == "初七"@ {
        Some("七夕"@)
    } else if m == "八月"@ && d == "十五"@ {
        Some("中秋"@)
    } else if m == "九月"@ && d == "初九"@ {
        Some("重阳"@)
    } else if m == "腊月"@ && d == "初八"@ {
        Some("腊八"@)
    } else {
        None
    }
}

pub open spec fn festival_label_of(date: Date) -> Option<Seq<char>> {
    match lunar_of_date(date) {
        Some((m, d, _)) => festival_of(m, d),
        None => None,
    }
}

/// The traditional festivals by lunar month and day: (month, day, label).
pub open spec fn traditional_festivals() -> Seq<(Seq<char>, Seq<char>, Seq<char>)> {
    seq![
        ("正月"@, "初一"@, "春节"@),
        ("正月"@, "十五"@, "元宵"@),
        ("五月"@, "初五"@, "端午"@),
        ("七月"@, "初七"@, "七夕"@),
        ("八月"@, "十五"@, "中秋"@),
        ("九月"@, "初九"@, "重阳"@),
        ("腊月"@, "初八"@, "腊八"@),
    ]
}

/// A date carries a festival label exactly when its lunar month and day (as the lunisolar
/// reading gives them) are those of a traditional festival, and the label is that
/// festival's: `中秋` on 八月十五, `春节` on 正月初一, and so on.
pub proof fn lemma_festival_by_lunar_day(date: Date)
    ensures
        forall|k: int| 0 <= k < traditional_festivals().len() ==> (lunar_of_date(date) matches Some((m, d, _))
            && m == (#[trigger] traditional_festivals()[k]).0 && d == traditional_festivals()[k].1
            ==> festival_label_of(date) == Some(traditional_festivals()[k].2)),
        festival_label_of(date) is Some ==> exists|k: int| 0 <= k < traditional_festivals().len()
            && (lunar_of_date(date) matches Some((m, d, _)) && m == (#[trigger] traditional_festivals()[k]).0
            && d == traditional_festivals()[k].1) && festival_label_of(date) == Some(traditional_festivals()[k].2),
{
    reveal_strlit("七夕");
    reveal_strlit("七月");
    reveal_strlit("中秋");
    reveal_strlit("九月");
    reveal_strlit("五月");
    reveal_strlit("元宵");
    reveal_strlit("八月");
    reveal_strlit("初一");
    reveal_strlit("初七");
    reveal_strlit("初九");
    reveal_strlit("初五");
    reveal_strlit("初八");
    reveal_strlit("十五");
    reveal_strlit("春节");
    reveal_strlit("正月");
    reveal_strlit("端午");
    reveal_strlit("腊八");
    reveal_strlit("腊月");
    reveal_strlit("重阳");
    let t = traditional_festivals();
    assert(t.len() == 7);
    let months = seq!["正月"@, "五月"@, "七月"@, "八月"@, "九月"@, "腊月"@];
    assert forall|i: int, j: int| 0 <= i < j < 6 implies #[trigger] months[i] != #[trigger] months[j] by {
        assert(months[i][0] != months[j][0]);
    }
    assert("十五"@ != "初一"@) by {
        assert("十五"@[0] != "初一"@[0]);
    }
    assert forall|k: int| 0 <= k < 7 implies festival_of(#[trigger] t[k].0, t[k].1) == Some(t[k].2) by {
        if k == 2 {
            assert(months[1] != months[0]);
        } else if k == 3 {
            assert(months[2] != months[0] && months[2] != months[1]);
        } else if k == 4 {
            assert(months[3] != months[0] && months[3] != months[1] && months[3] != months[2]);
        } else if k == 5 {
            assert(months[4] != months[0] && months[4] != months[1] && months[4] != months[2] && months[4] != months[3]);
        } else if k == 6 {
            assert(months[5] != months[0] && months[5] != months[1] && months[5] != months[2] && months[5] != months[3]
                && months[5] != months[4]);
        }
    }
    if let Some((m, d, _)) = lunar_of_date(date) {
        if festival_of(m, d) is Some {
            let k: int = if m == "正月"@ && d == "初一"@ {
                0
            } else if m == "正月"@ && d == "十五"@ {
                1
            } else if m == "五月"@ && d == "初五"@ {
                2
            } else if m == "七月"@ && d == "初七"@ {
                3
            } else if d == "十五"@ && m == "八月"@ {
                4
            } else if m == "九月"@ && d == "初九"@ {
                5
            } else {
                6
            };
            assert(t[k].0 == m && t[k].1 == d && festival_label_of(date) == Some(t[k].2));
        }
    }
}

/// Short label of a traditional festival falling on the date.
pub fn festival_label(date: &Date) -> (r: Option<&'static str>)
    requires
        date.wf(),
    ensures
        r is Some <==> festival_label_of(*date) is Some,
        r matches Some(s) ==> festival_label_of(*date) == Some(s@),
{
    let (m, d, _) = to_lunisolar(date)?;
    if eq_str(&m, "正月") && eq_str(&d, "初一") {
        Some("春节")
    } else if eq_str(&m, "正月") && eq_str(&d, "十五") {
        Some("元宵")
    } else if eq_str(&m, "五月") && eq_str(&d, "初五") {
        Some("端午")
    } else if eq_str(&m, "七月") && eq_str(&d, "初七") {
        Some("七夕")
    } else if eq_str(&m, "八月") && eq_str(&d, "十五") {
        Some("中秋")
    } else if eq_str(&m, "九月") && eq_str(&d, "初九") {
        Some("重阳")
    } else if eq_str(&m, "腊月") && eq_str(&d, "初八") {
        Some("腊八")
    } else {
        None
    }
}

} // verus!
