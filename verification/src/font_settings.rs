//! The interface font: the labels offered in settings and the font families they stand for.

use crate::text::{append_str, chars_of, eq_str, string_from_chars};
use vstd::prelude::*;

verus! {

pub const DEFAULT_FONT_FAMILY: &'static str = "Noto Sans SC";

/// The font family a preset label stands for; the empty family is the system default.
pub open spec fn family_of_choice(choice: Seq<char>) -> Option<Seq<char>> {
    if choice == "系统默认"@ {
        Some(""@)
    } else if choice == "Noto Sans SC"@ {
        Some("Noto Sans SC"@)
    } else if choice == "微软雅黑"@ {
        Some("Microsoft YaHei UI"@)
    } else if choice == "等线"@ {
        Some("DengXian"@)
    } else if choice == "思源宋体"@ {
        Some("Source Han Serif SC"@)
    } else {
        None
    }
}

pub fn family_from_choice(choice: &str) -> (r: Option<&'static str>)
    ensures
        r matches Some(f) ==> family_of_choice(choice@) == Some(f@),
        r is None ==> family_of_choice(choice@) is None,
{
    let c = chars_of(choice);
    if eq_str(&c, "系统默认") {
        Some("")
    } else if eq_str(&c, "Noto Sans SC") {
        Some("Noto Sans SC")
    } else if eq_str(&c, "微软雅黑") {
        Some("Microsoft YaHei UI")
    } else if eq_str(&c, "等线") {
        Some("DengXian")
    } else if eq_str(&c, "思源宋体") {
        Some("Source Han Serif SC")
    } else {
        None
    }
}

/// The label shown for a font family; an unknown family is shown as a custom font.
pub open spec fn choice_of_family(family: Seq<char>) -> Seq<char> {
    if family == ""@ {
        "系统默认"@
    } else if family == "Noto Sans SC"@ {
        "Noto Sans SC"@
    } else if family == "Microsoft YaHei UI"@ || family == "Microsoft YaHei"@ {
        "微软雅黑"@
    } else if family == "DengXian"@ {
        "等线"@
    } else if family == "Source Han Serif SC"@ || family == "Source Han Serif CN"@ {
        "思源宋体"@
    } else {
        "自定义 · "@ + family
    }
}

pub fn choice_from_family(family: &str) -> (r: String)
    ensures
        r@ == choice_of_family(family@),
{
    let f = chars_of(family);
    let v = if eq_str(&f, "") {
        chars_of("系统默认")
    } else if eq_str(&f, "Noto Sans SC") {
        chars_of("Noto Sans SC")
    } else if eq_str(&f, "Microsoft YaHei UI") || eq_str(&f, "Microsoft YaHei") {
        chars_of("微软雅黑")
    } else if eq_str(&f, "DengXian") {
        chars_of("等线")
    } else if eq_str(&f, "Source Han Serif SC") || eq_str(&f, "Source Han Serif CN") {
        chars_of("思源宋体")
    } else {
        let mut v = chars_of("自定义 · ");
        append_str(&mut v, family);
        v
    };
    string_from_chars(&v)
}

/// Font files accepted for a custom interface font, by extension in any ASCII case.
pub open spec fn font_extension_ok(ext: Seq<char>) -> bool {
    let lower = crate::ics::lower_ascii(ext);
    lower == "ttf"@ || lower == "otf"@ || lower == "ttc"@
}

pub fn is_font_extension(ext: &str) -> (b: bool)
    ensures
        b == font_extension_ok(ext@),
{
    let e = chars_of(ext);
    let lower = crate::ics::lower_ascii_chars(&e);
    eq_str(&lower, "ttf") || eq_str(&lower, "otf") || eq_str(&lower, "ttc")
}

/// The largest font file accepted (128 MB).
pub const MAX_FONT_FILE_BYTES: usize = 134217728;

} // verus!
