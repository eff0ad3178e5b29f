//! The Quick Look listing of an archive: dates, icons and HTML escaping of
//! what it shows.

use vstd::prelude::*;

use crate::model::{last_extension, last_extension_exec, EntryInfo};
use crate::paths::{file_name, file_name_exec};
use crate::text::{
    chars_of, decimal, decimal_chars, decimal_padded, decimal_padded_chars, lower, lowercase, push_chars, push_str,
    string_from_chars,
};

verus! {

/// The Gregorian leap-year rule.
pub open spec fn is_leap_spec(y: int) -> bool {
    (y % 4 == 0 && y % 100 != 0) || y % 400 == 0
}

proof fn lemma_mod_neg(y: int, k: int)
    requires
        k > 0,
    ensures
        ((-y) % k == 0) == (y % k == 0),
{
    vstd::arithmetic::div_mod::lemma_fundamental_div_mod(y, k);
    vstd::arithmetic::div_mod::lemma_fundamental_div_mod(-y, k);
    if y % k == 0 {
        let q = y / k;
        assert(-y == k * (-q)) by (nonlinear_arith)
            requires
                y == k * q + 0,
        ;
        vstd::arithmetic::div_mod::lemma_mod_multiples_basic(-(y / k), k);
        assert((k * (-(y / k))) % k == 0) by {
            vstd::arithmetic::mul::lemma_mul_is_commutative(k, -(y / k));
        }
    }
    if (-y) % k == 0 {
        let q = (-y) / k;
        assert(y == k * (-q)) by (nonlinear_arith)
            requires
                -y == k * q + 0,
        ;
        vstd::arithmetic::div_mod::lemma_mod_multiples_basic(-((-y) / k), k);
        assert((k * (-((-y) / k))) % k == 0) by {
            vstd::arithmetic::mul::lemma_mul_is_commutative(k, -((-y) / k));
        }
    }
}

/// Whether `y` is a leap year.
pub fn is_leap(y: i64) -> (b: bool)
    ensures
        b == is_leap_spec(y as int),
{
    let a: i128 = if y < 0 { -(y as i128) } else { y as i128 };
    proof {
        if y < 0 {
            lemma_mod_neg(y as int, 4);
            lemma_mod_neg(y as int, 100);
            lemma_mod_neg(y as int, 400);
        }
    }
    (a % 4 == 0 && a % 100 != 0) || a % 400 == 0
}

/// Days in year `y`.
pub open spec fn year_len(y: int) -> int {
    if is_leap_spec(y) {
        366
    } else {
        365
    }
}

/// The year a day count from 1 January of `y` falls in, and the day within
/// that year (0-based).
pub open spec fn split_years(days: int, y: int) -> (int, int)
    decreases days,
{
    if days >= year_len(y) && days >= 0 {
        split_years(days - year_len(y), y + 1)
    } else {
        (y, days)
    }
}

/// Days in month `i` (0-based) of a year.
pub open spec fn month_len(leap: bool, i: int) -> int {
    if i == 1 {
        if leap {
            29
        } else {
            28
        }
    } else if i == 3 || i == 5 || i == 8 || i == 10 {
        30
    } else {
        31
    }
}

/// Month (1-12) and day (1-31) of the 0-based day `rem` of a year, counted
/// from month `i`; past December it gives 31 December.
pub open spec fn month_day_from(leap: bool, rem: int, i: int) -> (int, int)
    decreases 12 - i,
{
    if i >= 12 {
        (12, 31)
    } else if rem < month_len(leap, i) {
        (i + 1, rem + 1)
    } else {
        month_day_from(leap, rem - month_len(leap, i), i + 1)
    }
}

/// Month and day of the 0-based day `days` of `year`.
pub fn day_of_year_to_md(year: i64, days: u32) -> (r: (u32, u32))
    ensures
        r.0 == month_day_from(is_leap_spec(year as int), days as int, 0).0,
        r.1 == month_day_from(is_leap_spec(year as int), days as int, 0).1,
{
    let leap = is_leap(year);
    let month_days: [u32; 12] = if leap {
        [31, 29, 31, 30, 31, 30, 31, 31, 30, 31, 30, 31]
    } else {
        [31, 28, 31, 30, 31, 30, 31, 31, 30, 31, 30, 31]
    };
    let mut rem = days;
    let mut i: usize = 0;
    while i < 12
        invariant
            i <= 12,
            leap == is_leap_spec(year as int),
            forall|k: int| 0 <= k < 12 ==> month_days@[k] == month_len(leap, k),
            month_day_from(leap, days as int, 0) == month_day_from(leap, rem as int, i as int),
        decreases 12 - i,
    {
        let md = month_days[i];
        if rem < md {
            return ((i + 1) as u32, rem + 1);
        }
        rem = rem - md;
        i = i + 1;
    }
    (12, 31)
}

/// `YYYY-MM-DD HH:MM` of Unix seconds, in UTC (leap seconds ignored).
pub open spec fn format_unix_utc_spec(ts: nat) -> Seq<char> {
    let (year, yday) = split_years(ts as int / 86400, 1970);
    let (month, mday) = month_day_from(is_leap_spec(year), yday, 0);
    let sod = ts as int % 86400;
    decimal_padded(year as nat, 4) + "-"@ + decimal_padded(month as nat, 2) + "-"@
        + decimal_padded(mday as nat, 2) + " "@ + decimal_padded((sod / 3600) as nat, 2) + ":"@
        + decimal_padded(((sod % 3600) / 60) as nat, 2)
}

proof fn lemma_split_years_bounds(days: int, y: int)
    requires
        days >= 0,
        y >= 1970,
    ensures
        split_years(days, y).0 >= y,
        split_years(days, y).0 <= y + days,
        0 <= split_years(days, y).1 < year_len(split_years(days, y).0),
    decreases days,
{
    if days >= year_len(y) {
        lemma_split_years_bounds(days - year_len(y), y + 1);
    }
}

/// Formats Unix seconds as a UTC date and time for display.
pub fn format_unix_utc(ts: u64) -> (r: String)
    ensures
        r@ == format_unix_utc_spec(ts as nat),
{
    let secs_of_day = (ts % 86400) as u32;
    let mut days: u64 = ts / 86400;
    let mut year: i64 = 1970;
    proof {
        lemma_split_years_bounds(days as int, 1970);
    }
    let mut ydays: u64 = if is_leap(year) { 366 } else { 365 };
    while days >= ydays
        invariant
            ydays == year_len(year as int),
            1970 <= year,
            year - 1970 + days <= ts / 86400,
            ts / 86400 <= 0x1_0000_0000_0000,
            split_years(ts as int / 86400, 1970) == split_years(days as int, year as int),
        decreases days,
    {
        days = days - ydays;
        year = year + 1;
        ydays = if is_leap(year) { 366 } else { 365 };
    }
    proof {
        lemma_split_years_bounds(days as int, year as int);
    }
    let (month, mday) = day_of_year_to_md(year, days as u32);
    let hh = secs_of_day / 3600;
    let mm = (secs_of_day % 3600) / 60;
    let mut out: Vec<char> = Vec::new();
    let y = decimal_padded_chars(year as u64, 4);
    push_chars(&mut out, y.as_slice());
    push_str(&mut out, "-");
    let m = decimal_padded_chars(month as u64, 2);
    push_chars(&mut out, m.as_slice());
    push_str(&mut out, "-");
    let d = decimal_padded_chars(mday as u64, 2);
    push_chars(&mut out, d.as_slice());
    push_str(&mut out, " ");
    let h = decimal_padded_chars(hh as u64, 2);
    push_chars(&mut out, h.as_slice());
    push_str(&mut out, ":");
    let mi = decimal_padded_chars(mm as u64, 2);
    push_chars(&mut out, mi.as_slice());
    string_from_chars(out.as_slice())
}

/// The modification time shown for an entry (`—` when unknown).
pub fn fmt_modified(e: &EntryInfo) -> (r: String)
    ensures
        match e.modified {
            Some(ts) => r@ == format_unix_utc_spec(ts as nat),
            None => r@ == "—"@,
        },
{
    match e.modified {
        Some(ts) => format_unix_utc(ts),
        None => "—".to_owned(),
    }
}

/// The HTML escape of one character.
pub open spec fn escape_char(c: char) -> Seq<char> {
    if c == '&' {
        "&amp;"@
    } else if c == '<' {
        "&lt;"@
    } else if c == '>' {
        "&gt;"@
    } else if c == '"' {
        "&quot;"@
    } else {
        seq![c]
    }
}

/// `&`, `<`, `>` and `"` escaped for HTML.
pub open spec fn html_escape_spec(s: Seq<char>) -> Seq<char>
    decreases s.len(),
{
    if s.len() == 0 {
        Seq::<char>::empty()
    } else {
        html_escape_spec(s.drop_last()) + escape_char(s.last())
    }
}

/// Escapes text for HTML.
pub fn html_escape(s: &str) -> (r: String)
    ensures
        r@ == html_escape_spec(s@),
{
    let sc = chars_of(s);
    let mut out: Vec<char> = Vec::new();
    let mut i: usize = 0;
    while i < sc.len()
        invariant
            i <= sc@.len(),
            sc@ == s@,
            out@ == html_escape_spec(sc@.take(i as int)),
        decreases sc.len() - i,
    {
        let c = sc[i];
        if c == '&' {
            push_str(&mut out, "&amp;");
        } else if c == '<' {
            push_str(&mut out, "&lt;");
        } else if c == '>' {
            push_str(&mut out, "&gt;");
        } else if c == '"' {
            push_str(&mut out, "&quot;");
        } else {
            out.push(c);
        }
        proof {
            let t = sc@.take(i + 1);
            assert(t.drop_last() =~= sc@.take(i as int));
            assert(t.last() == c);
        }
        i = i + 1;
        assert(out@ =~= html_escape_spec(sc@.take(i as int)));
    }
    assert(sc@.take(i as int) =~= sc@);
    string_from_chars(out.as_slice())
}

/// Whether `e` is one of the texts in `list`.
pub open spec fn one_of(e: Seq<char>, list: Seq<Seq<char>>) -> bool {
    exists|i: int| 0 <= i < list.len() && list[i] == e
}

pub open spec fn image_exts() -> Seq<Seq<char>> {
    seq!["png"@, "jpg"@, "jpeg"@, "gif"@, "bmp"@, "webp"@, "svg"@, "ico"@]
}

pub open spec fn text_exts() -> Seq<Seq<char>> {
    seq![
        "txt"@, "md"@, "log"@, "csv"@, "json"@, "xml"@, "yaml"@, "yml"@, "toml"@, "rs"@, "js"@,
        "ts"@, "vue"@, "py"@, "c"@, "h"@, "cpp"@, "go"@, "java"@,
    ]
}

pub open spec fn audio_exts() -> Seq<Seq<char>> {
    seq!["mp3"@, "wav"@, "flac"@, "m4a"@, "ogg"@]
}

pub open spec fn video_exts() -> Seq<Seq<char>> {
    seq!["mp4"@, "mov"@, "mkv"@, "avi"@, "webm"@]
}

pub open spec fn archive_exts() -> Seq<Seq<char>> {
    seq![
        "zip"@, "7z"@, "gz"@, "tgz"@, "bz2"@, "tbz"@, "xz"@, "txz"@, "zst"@, "tar"@, "rar"@,
        "lzh"@,
    ]
}

/// The icon shown for an entry: a folder, or by the lower-cased text after
/// the last `.` of its name.
pub open spec fn icon_glyph_spec(name: Seq<char>, is_dir: bool) -> Seq<char> {
    let e = last_extension(lower(name));
    if is_dir {
        "📁"@
    } else if one_of(e, image_exts()) {
        "🖼️"@
    } else if one_of(e, text_exts()) {
        "📄"@
    } else if one_of(e, audio_exts()) {
        "🎵"@
    } else if one_of(e, video_exts()) {
        "🎬"@
    } else if one_of(e, archive_exts()) {
        "🗜️"@
    } else if e == "pdf"@ {
        "📕"@
    } else if e == "doc"@ || e == "docx"@ || e == "pages"@ {
        "📘"@
    } else if e == "xls"@ || e == "xlsx"@ || e == "numbers"@ {
        "📗"@
    } else if e == "ppt"@ || e == "pptx"@ || e == "key"@ {
        "📙"@
    } else if e == "app"@ || e == "exe"@ || e == "dmg"@ || e == "pkg"@ {
        "⚙️"@
    } else {
        "📄"@
    }
}

fn in_list(e: &[char], list: &[&str]) -> (b: bool)
    ensures
        b == exists|i: int| 0 <= i < list@.len() && list@[i]@ == e@,
{
    let mut i: usize = 0;
    while i < list.len()
        invariant
            i <= list@.len(),
            forall|k: int| 0 <= k < i ==> list@[k]@ != e@,
        decreases list.len() - i,
    {
        if crate::text::eq_str(e, list[i]) {
            return true;
        }
        i = i + 1;
    }
    false
}

proof fn lemma_list_view(list: Seq<&str>, spec_list: Seq<Seq<char>>, e: Seq<char>)
    requires
        list.len() == spec_list.len(),
        forall|k: int| 0 <= k < list.len() ==> list[k]@ == spec_list[k],
    ensures
        (exists|i: int| 0 <= i < list.len() && list[i]@ == e) == one_of(e, spec_list),
{
    if one_of(e, spec_list) {
        let i = choose|i: int| 0 <= i < spec_list.len() && spec_list[i] == e;
        assert(list[i]@ == e);
    }
    if exists|i: int| 0 <= i < list.len() && list[i]@ == e {
        let i = choose|i: int| 0 <= i < list.len() && list[i]@ == e;
        assert(spec_list[i] == e);
    }
}

/// The icon shown for an entry in the Quick Look listing.
pub fn icon_glyph(name: &str, is_dir: bool) -> (r: &'static str)
    ensures
        r@ == icon_glyph_spec(name@, is_dir),
{
    if is_dir {
        return "📁";
    }
    let nc = chars_of(name);
    let lc = lowercase(nc.as_slice());
    let ev = last_extension_exec(lc.as_slice());
    let e = ev.as_slice();
    let images: [&str; 8] = ["png", "jpg", "jpeg", "gif", "bmp", "webp", "svg", "ico"];
    let texts: [&str; 19] = [
        "txt",
        "md",
        "log",
        "csv",
        "json",
        "xml",
        "yaml",
        "yml",
        "toml",
        "rs",
        "js",
        "ts",
        "vue",
        "py",
        "c",
        "h",
        "cpp",
        "go",
        "java",
    ];
    let audio: [&str; 5] = ["mp3", "wav", "flac", "m4a", "ogg"];
    let video: [&str; 5] = ["mp4", "mov", "mkv", "avi", "webm"];
    let archives: [&str; 12] = [
        "zip",
        "7z",
        "gz",
        "tgz",
        "bz2",
        "tbz",
        "xz",
        "txz",
        "zst",
        "tar",
        "rar",
        "lzh",
    ];
    proof {
        lemma_list_view(images@, image_exts(), ev@);
        lemma_list_view(texts@, text_exts(), ev@);
        lemma_list_view(audio@, audio_exts(), ev@);
        lemma_list_view(video@, video_exts(), ev@);
        lemma_list_view(archives@, archive_exts(), ev@);
    }
    if in_list(e, images.as_slice()) {
        "🖼️"
    } else if in_list(e, texts.as_slice()) {
        "📄"
    } else if in_list(e, audio.as_slice()) {
        "🎵"
    } else if in_list(e, video.as_slice()) {
        "🎬"
    } else if in_list(e, archives.as_slice()) {
        "🗜️"
    } else if crate::text::eq_str(e, "pdf") {
        "📕"
    } else if crate::text::eq_str(e, "doc") || crate::text::eq_str(e, "docx")
        || crate::text::eq_str(e, "pages") {
        "📘"
    } else if crate::text::eq_str(e, "xls") || crate::text::eq_str(e, "xlsx")
        || crate::text::eq_str(e, "numbers") {
        "📗"
    } else if crate::text::eq_str(e, "ppt") || crate::text::eq_str(e, "pptx")
        || crate::text::eq_str(e, "key") {
        "📙"
    } else if crate::text::eq_str(e, "app") || crate::text::eq_str(e, "exe")
        || crate::text::eq_str(e, "dmg") || crate::text::eq_str(e, "pkg") {
        "⚙️"
    } else {
        "📄"
    }
}

/// The name shown for an archive: its file name, or the whole path when it
/// has none.
pub open spec fn shown_name(archive: Seq<char>) -> Seq<char> {
    match file_name(archive) {
        Some(n) => n,
        None => archive,
    }
}

/// The Quick Look page shown when an archive cannot be listed.
pub open spec fn render_error_spec(archive: Seq<char>, msg: Seq<char>) -> Seq<char> {
    "<!DOCTYPE html><html><head><meta charset=\"utf-8\"><style>body{font-family:-apple-system,sans-serif;padding:24px;color:#1d1d1f;} .err{color:#b00;font-weight:600;} .mut{color:#86868b;font-size:12px;}</style></head><body><div class=\"title\">"@
        + html_escape_spec(shown_name(archive))
        + "</div><div class=\"err\" style=\"margin-top:12px\">无法预览此压缩包</div><div class=\"mut\" style=\"margin-top:6px\">"@
        + html_escape_spec(msg)
        + "</div><div class=\"mut\" style=\"margin-top:18px\">ArkBox · Quick Look 预览</div></body></html>"@
}

/// The self-contained HTML page telling that `archive` cannot be previewed,
/// with the reason `msg`.
pub fn render_error(archive: &str, msg: &str) -> (r: String)
    ensures
        r@ == render_error_spec(archive@, msg@),
{
    let ac = chars_of(archive);
    let title = match file_name_exec(ac.as_slice()) {
        Some(n) => string_from_chars(n.as_slice()),
        None => archive.to_owned(),
    };
    let mut v: Vec<char> = Vec::new();
    push_str(
        &mut v,
        "<!DOCTYPE html><html><head><meta charset=\"utf-8\"><style>body{font-family:-apple-system,sans-serif;padding:24px;color:#1d1d1f;} .err{color:#b00;font-weight:600;} .mut{color:#86868b;font-size:12px;}</style></head><body><div class=\"title\">",
    );
    let t = html_escape(title.as_str());
    push_str(&mut v, t.as_str());
    push_str(
        &mut v,
        "</div><div class=\"err\" style=\"margin-top:12px\">无法预览此压缩包</div><div class=\"mut\" style=\"margin-top:6px\">",
    );
    let m = html_escape(msg);
    push_str(&mut v, m.as_str());
    push_str(&mut v, "</div><div class=\"mut\" style=\"margin-top:18px\">ArkBox · Quick Look 预览</div></body></html>");
    string_from_chars(v.as_slice())
}

/// The number of `/` in `s` (how deep an entry name is).
pub open spec fn slash_count(s: Seq<char>) -> nat
    decreases s.len(),
{
    if s.len() == 0 {
        0
    } else {
        slash_count(s.drop_last()) + if s.last() == '/' {
            1nat
        } else {
            0nat
        }
    }
}

/// The modification time shown for an entry.
pub open spec fn modified_text(e: EntryInfo) -> Seq<char> {
    match e.modified {
        Some(ts) => format_unix_utc_spec(ts as nat),
        None => "—"@,
    }
}

/// The method shown for an entry.
pub open spec fn method_text(e: EntryInfo) -> Seq<char> {
    match e.method {
        Some(m) => m@,
        None => "—"@,
    }
}

/// The table row of an entry, indented by its depth; `size_label` is its
/// size as shown (directories show none).
pub open spec fn row_spec(e: EntryInfo, size_label: Seq<char>) -> Seq<char> {
    "<tr><td class=\"ic\">"@ + icon_glyph_spec(e.name@, e.is_dir) + "</td><td style=\"padding-left:"@
        + decimal(slash_count(e.name@) * 16) + "px\">"@ + html_escape_spec(e.name@)
        + "</td><td class=\"num\">"@ + (if e.is_dir {
        "—"@
    } else {
        size_label
    }) + "</td><td class=\"mut\">"@ + method_text(e) + "</td><td class=\"mut\">"@ + html_escape_spec(
        modified_text(e),
    ) + "</td></tr>"@
}

/// The rows of the first entries, in order.
pub open spec fn rows_spec(es: Seq<EntryInfo>, labels: Seq<Seq<char>>) -> Seq<char>
    decreases es.len(),
{
    if es.len() == 0 {
        Seq::<char>::empty()
    } else {
        rows_spec(es.drop_last(), labels) + row_spec(es.last(), labels[es.len() - 1])
    }
}

/// How many entries are files, and how many directories.
pub open spec fn kind_counts(es: Seq<EntryInfo>) -> (nat, nat)
    decreases es.len(),
{
    if es.len() == 0 {
        (0, 0)
    } else {
        let c = kind_counts(es.drop_last());
        if es.last().is_dir {
            (c.0, c.1 + 1)
        } else {
            (c.0 + 1, c.1)
        }
    }
}

/// The bytes of the files listed.
pub open spec fn files_size(es: Seq<EntryInfo>) -> int
    decreases es.len(),
{
    if es.len() == 0 {
        0
    } else {
        files_size(es.drop_last()) + if es.last().is_dir {
            0
        } else {
            es.last().size as int
        }
    }
}

proof fn lemma_files_size_prefix(es: Seq<EntryInfo>, k: int)
    requires
        0 <= k <= es.len(),
    ensures
        files_size(es.take(k)) <= files_size(es),
    decreases es.len() - k,
{
    if k < es.len() {
        lemma_files_size_prefix(es, k + 1);
        assert(es.take(k + 1).drop_last() =~= es.take(k));
    } else {
        assert(es.take(k) =~= es);
    }
}

/// The bytes of the files listed, for the page's summary; `None` when the
/// sum does not fit in 64 bits.
pub fn listing_total(entries: &Vec<EntryInfo>) -> (r: Option<u64>)
    ensures
        r == (if files_size(entries@) <= u64::MAX {
            Some(files_size(entries@) as u64)
        } else {
            None::<u64>
        }),
{
    let mut sum: u64 = 0;
    let mut i: usize = 0;
    while i < entries.len()
        invariant
            i <= entries@.len(),
            sum == files_size(entries@.take(i as int)),
        decreases entries.len() - i,
    {
        assert(entries@.take(i + 1).drop_last() =~= entries@.take(i as int));
        if !entries[i].is_dir {
            if sum > u64::MAX - entries[i].size {
                proof {
                    lemma_files_size_prefix(entries@, i + 1);
                }
                return None;
            }
            sum = sum + entries[i].size;
        }
        i = i + 1;
    }
    assert(entries@.take(i as int) =~= entries@);
    Some(sum)
}

/// The Quick Look page listing an archive: its name (with a lock when it
/// is encrypted), how many files and folders it holds and their total size
/// (`total_label`), and a row per entry (`size_labels` gives each file's
/// size as shown).
pub open spec fn render_spec(
    archive: Seq<char>,
    es: Seq<EntryInfo>,
    encrypted: bool,
    labels: Seq<Seq<char>>,
    total_label: Seq<char>,
) -> Seq<char> {
    "<!DOCTYPE html><html><head><meta charset=\"utf-8\"><style>* { box-sizing: border-box; } body { margin:0; font-family:-apple-system,BlinkMacSystemFont,\"SF Pro Text\",\"Helvetica Neue\",Arial,sans-serif; color:#1d1d1f; background:#fff; } .wrap { padding:18px 22px; } .head { display:flex; align-items:baseline; gap:10px; border-bottom:1px solid #e6e6e6; padding-bottom:10px; } .title { font-size:17px; font-weight:600; } .meta { font-size:12px; color:#86868b; margin-left:auto; } .lock { color:#b25000; background:#fff3e0; border:1px solid #ffd8a8; border-radius:6px; padding:2px 8px; font-size:12px; font-weight:500; } table { width:100%; border-collapse:collapse; margin-top:10px; font-size:13px; } tr { border-bottom:1px solid #f2f2f2; } td { padding:5px 8px; vertical-align:middle; } td.ic { width:26px; font-size:14px; } td.num { text-align:right; color:#1d1d1f; font-variant-numeric:tabular-nums; white-space:nowrap; } td.mut { color:#86868b; font-size:11px; white-space:nowrap; } .sum { font-size:12px; color:#86868b; margin-top:10px; } </style></head><body><div class=\"wrap\"><div class=\"head\"><span class=\"title\">"@
        + html_escape_spec(shown_name(archive)) + "</span>"@ + (if encrypted {
        "<span class=\"lock\">🔒 已加密</span>"@
    } else {
        Seq::<char>::empty()
    }) + "<span class=\"meta\">"@ + decimal(kind_counts(es).0) + " 个文件 · "@ + decimal(kind_counts(es).1)
        + " 个文件夹 · 共 "@ + total_label + "</span></div><table>"@ + rows_spec(es, labels)
        + "</table><div class=\"sum\">ArkBox · Quick Look 预览</div></div></body></html>"@
}

fn count_slashes(s: &[char]) -> (n: u64)
    requires
        s@.len() <= u64::MAX,
    ensures
        n == slash_count(s@),
        n <= s@.len(),
{
    let mut n: u64 = 0;
    let mut i: usize = 0;
    while i < s.len()
        invariant
            i <= s@.len(),
            s@.len() <= u64::MAX,
            n == slash_count(s@.take(i as int)),
            n <= i,
        decreases s.len() - i,
    {
        assert(s@.take(i + 1).drop_last() =~= s@.take(i as int));
        if s[i] == '/' {
            n = n + 1;
        }
        i = i + 1;
    }
    assert(s@.take(i as int) =~= s@);
    n
}

fn push_row(out: &mut Vec<char>, e: &EntryInfo, size_label: &str)
    requires
        e.name@.len() < 0x1000_0000_0000_0000,
    ensures
        final(out)@ == old(out)@ + row_spec(*e, size_label@),
{
    let nc = chars_of(e.name.as_str());
    let depth = count_slashes(nc.as_slice());
    let glyph = icon_glyph(e.name.as_str(), e.is_dir);
    let pad = decimal_chars(depth * 16);
    let name = html_escape(e.name.as_str());
    let modified = fmt_modified(e);
    let m = html_escape(modified.as_str());
    let mut row: Vec<char> = Vec::new();
    push_str(&mut row, "<tr><td class=\"ic\">");
    push_str(&mut row, glyph);
    push_str(&mut row, "</td><td style=\"padding-left:");
    push_chars(&mut row, pad.as_slice());
    push_str(&mut row, "px\">");
    push_str(&mut row, name.as_str());
    push_str(&mut row, "</td><td class=\"num\">");
    if e.is_dir {
        push_str(&mut row, "—");
    } else {
        push_str(&mut row, size_label);
    }
    push_str(&mut row, "</td><td class=\"mut\">");
    match &e.method {
        Some(t) => push_str(&mut row, t.as_str()),
        None => push_str(&mut row, "—"),
    }
    push_str(&mut row, "</td><td class=\"mut\">");
    push_str(&mut row, m.as_str());
    push_str(&mut row, "</td></tr>");
    proof {
        assert(row@ =~= row_spec(*e, size_label@));
    }
    push_chars(out, row.as_slice());
}

/// The Quick Look page listing an archive (see `render_spec`); each file's
/// size is shown as `size_labels` gives it, and the total as `total_label`.
pub fn render(
    archive: &str,
    entries: &Vec<EntryInfo>,
    encrypted: bool,
    size_labels: &Vec<String>,
    total_label: &str,
) -> (r: String)
    requires
        size_labels@.len() == entries@.len(),
        forall|i: int| 0 <= i < entries@.len() ==> (#[trigger] entries@[i]).name@.len() < 0x1000_0000_0000_0000,
    ensures
        r@ == render_spec(archive@, entries@, encrypted, crate::text::strs(size_labels@), total_label@),
{
    let ghost labels = crate::text::strs(size_labels@);
    let mut rows: Vec<char> = Vec::new();
    let mut files: u64 = 0;
    let mut dirs: u64 = 0;
    let mut i: usize = 0;
    while i < entries.len()
        invariant
            i <= entries@.len(),
            size_labels@.len() == entries@.len(),
            labels == crate::text::strs(size_labels@),
            forall|k: int| 0 <= k < entries@.len() ==> (#[trigger] entries@[k]).name@.len() < 0x1000_0000_0000_0000,
            rows@ == rows_spec(entries@.take(i as int), labels),
            files == kind_counts(entries@.take(i as int)).0,
            dirs == kind_counts(entries@.take(i as int)).1,
            files + dirs == i,
        decreases entries.len() - i,
    {
        proof {
            let t = entries@.take(i + 1);
            assert(t.drop_last() =~= entries@.take(i as int));
            assert(t.last() == entries@[i as int]);
        }
        push_row(&mut rows, &entries[i], size_labels[i].as_str());
        if entries[i].is_dir {
            dirs = dirs + 1;
        } else {
            files = files + 1;
        }
        i = i + 1;
    }
    assert(entries@.take(i as int) =~= entries@);
    let ac = chars_of(archive);
    let title = match file_name_exec(ac.as_slice()) {
        Some(n) => string_from_chars(n.as_slice()),
        None => archive.to_owned(),
    };
    let mut v: Vec<char> = Vec::new();
    push_str(
        &mut v,
        "<!DOCTYPE html><html><head><meta charset=\"utf-8\"><style>* { box-sizing: border-box; } body { margin:0; font-family:-apple-system,BlinkMacSystemFont,\"SF Pro Text\",\"Helvetica Neue\",Arial,sans-serif; color:#1d1d1f; background:#fff; } .wrap { padding:18px 22px; } .head { display:flex; align-items:baseline; gap:10px; border-bottom:1px solid #e6e6e6; padding-bottom:10px; } .title { font-size:17px; font-weight:600; } .meta { font-size:12px; color:#86868b; margin-left:auto; } .lock { color:#b25000; background:#fff3e0; border:1px solid #ffd8a8; border-radius:6px; padding:2px 8px; font-size:12px; font-weight:500; } table { width:100%; border-collapse:collapse; margin-top:10px; font-size:13px; } tr { border-bottom:1px solid #f2f2f2; } td { padding:5px 8px; vertical-align:middle; } td.ic { width:26px; font-size:14px; } td.num { text-align:right; color:#1d1d1f; font-variant-numeric:tabular-nums; white-space:nowrap; } td.mut { color:#86868b; font-size:11px; white-space:nowrap; } .sum { font-size:12px; color:#86868b; margin-top:10px; } </style></head><body><div class=\"wrap\"><div class=\"head\"><span class=\"title\">",
    );
    let t = html_escape(title.as_str());
    push_str(&mut v, t.as_str());
    push_str(&mut v, "</span>");
    if encrypted {
        push_str(&mut v, "<span class=\"lock\">🔒 已加密</span>");
    }
    push_str(&mut v, "<span class=\"meta\">");
    let fc = decimal_chars(files);
    push_chars(&mut v, fc.as_slice());
    push_str(&mut v, " 个文件 · ");
    let dc = decimal_chars(dirs);
    push_chars(&mut v, dc.as_slice());
    push_str(&mut v, " 个文件夹 · 共 ");
    push_str(&mut v, total_label);
    push_str(&mut v, "</span></div><table>");
    push_chars(&mut v, rows.as_slice());
    push_str(&mut v, "</table><div class=\"sum\">ArkBox · Quick Look 预览</div></div></body></html>");
    proof {
        assert(v@ =~= render_spec(archive@, entries@, encrypted, labels, total_label@));
    }
    string_from_chars(v.as_slice())
}



/// The counts of files and of folders are those of the entries that are
/// not, and that are, directories.
proof fn lemma_kind_counts_filter(es: Seq<EntryInfo>)
    ensures
        kind_counts(es).0 == es.filter(|e: EntryInfo| !e.is_dir).len(),
        kind_counts(es).1 == es.filter(|e: EntryInfo| e.is_dir).len(),
    decreases es.len(),
{
    reveal(Seq::filter);
    if es.len() > 0 {
        lemma_kind_counts_filter(es.drop_last());
    }
}

/// Law: the summary at the head of the page gives, in this order, the
/// number of entries that are files (not directories), the number that
/// are folders, and the total size label; the two counts add up to the
/// number of entries.
pub proof fn law_summary_counts_files_and_folders(
    archive: Seq<char>,
    es: Seq<EntryInfo>,
    encrypted: bool,
    labels: Seq<Seq<char>>,
    total_label: Seq<char>,
)
    ensures
        ({
            let files = es.filter(|e: EntryInfo| !e.is_dir).len();
            let folders = es.filter(|e: EntryInfo| e.is_dir).len();
            &&& files + folders == es.len()
            &&& exists|head: Seq<char>, tail: Seq<char>|
                render_spec(archive, es, encrypted, labels, total_label) == head + "<span class=\"meta\">"@
                    + decimal(files) + " 个文件 · "@ + decimal(folders) + " 个文件夹 · 共 "@ + total_label
                    + "</span></div><table>"@ + tail
        }),
{
    lemma_kind_counts_filter(es);
    let files = es.filter(|e: EntryInfo| !e.is_dir).len();
    let folders = es.filter(|e: EntryInfo| e.is_dir).len();
    lemma_kind_counts_total(es);
    let page = render_spec(archive, es, encrypted, labels, total_label);
    let head = "<!DOCTYPE html><html><head><meta charset=\"utf-8\"><style>* { box-sizing: border-box; } body { margin:0; font-family:-apple-system,BlinkMacSystemFont,\"SF Pro Text\",\"Helvetica Neue\",Arial,sans-serif; color:#1d1d1f; background:#fff; } .wrap { padding:18px 22px; } .head { display:flex; align-items:baseline; gap:10px; border-bottom:1px solid #e6e6e6; padding-bottom:10px; } .title { font-size:17px; font-weight:600; } .meta { font-size:12px; color:#86868b; margin-left:auto; } .lock { color:#b25000; background:#fff3e0; border:1px solid #ffd8a8; border-radius:6px; padding:2px 8px; font-size:12px; font-weight:500; } table { width:100%; border-collapse:collapse; margin-top:10px; font-size:13px; } tr { border-bottom:1px solid #f2f2f2; } td { padding:5px 8px; vertical-align:middle; } td.ic { width:26px; font-size:14px; } td.num { text-align:right; color:#1d1d1f; font-variant-numeric:tabular-nums; white-space:nowrap; } td.mut { color:#86868b; font-size:11px; white-space:nowrap; } .sum { font-size:12px; color:#86868b; margin-top:10px; } </style></head><body><div class=\"wrap\"><div class=\"head\"><span class=\"title\">"@
        + html_escape_spec(shown_name(archive)) + "</span>"@ + (if encrypted {
        "<span class=\"lock\">🔒 已加密</span>"@
    } else {
        Seq::<char>::empty()
    });
    let tail = rows_spec(es, labels) + "</table><div class=\"sum\">ArkBox · Quick Look 预览</div></div></body></html>"@;
    assert(page =~= head + "<span class=\"meta\">"@ + decimal(files) + " 个文件 · "@ + decimal(folders)
        + " 个文件夹 · 共 "@ + total_label + "</span></div><table>"@ + tail);
}

proof fn lemma_kind_counts_total(es: Seq<EntryInfo>)
    ensures
        kind_counts(es).0 + kind_counts(es).1 == es.len(),
    decreases es.len(),
{
    if es.len() > 0 {
        lemma_kind_counts_total(es.drop_last());
    }
}


/// Law: escaped text never holds `<`, `>` or `"`, so a name can neither
/// open a tag nor close an attribute; text without `&`, `<`, `>` and `"` is
/// shown unchanged, and escaping never shortens the text.
pub proof fn law_escaped_text_is_inert(s: Seq<char>)
    ensures
        !html_escape_spec(s).contains('<'),
        !html_escape_spec(s).contains('>'),
        !html_escape_spec(s).contains('"'),
        html_escape_spec(s).len() >= s.len(),
        (forall|i: int| 0 <= i < s.len() ==> #[trigger] s[i] != '&' && s[i] != '<' && s[i] != '>' && s[i] != '"')
            ==> html_escape_spec(s) == s,
    decreases s.len(),
{
    reveal_strlit("&amp;");
    reveal_strlit("&lt;");
    reveal_strlit("&gt;");
    reveal_strlit("&quot;");
    if s.len() > 0 {
        let front = s.drop_last();
        law_escaped_text_is_inert(front);
        let e = escape_char(s.last());
        let r = html_escape_spec(s);
        assert(r == html_escape_spec(front) + e);
        assert(!e.contains('<') && !e.contains('>') && !e.contains('"')) by {
            if e.contains('<') || e.contains('>') || e.contains('"') {
                let j = choose|j: int| 0 <= j < e.len() && (e[j] == '<' || e[j] == '>' || e[j] == '"');
            }
        }
        assert forall|c: char| c == '<' || c == '>' || c == '"' implies !r.contains(c) by {
            if r.contains(c) {
                let j = choose|j: int| 0 <= j < r.len() && r[j] == c;
                if j < html_escape_spec(front).len() {
                    assert(html_escape_spec(front)[j] == c);
                } else {
                    assert(e[j - html_escape_spec(front).len()] == c);
                }
            }
        }
        if forall|i: int| 0 <= i < s.len() ==> #[trigger] s[i] != '&' && s[i] != '<' && s[i] != '>' && s[i] != '"' {
            assert forall|i: int| 0 <= i < front.len() implies #[trigger] front[i] != '&' && front[i] != '<'
                && front[i] != '>' && front[i] != '"' by {
                assert(front[i] == s[i]);
            }
            assert(s[s.len() - 1] == s.last());
            assert(s =~= front + seq![s.last()]);
        }
    }
}

} // verus!
