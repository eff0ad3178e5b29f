//! Read-only RAR support: entry names, DOS timestamps, method labels, error
//! classification, and the decisions taken while listing, testing and
//! previewing. Reading the archive itself is done by the UnRAR library at the
//! edge of the program; this module decides what to make of what it reports.

use vstd::prelude::*;

use crate::error::{
    archive_err, archive_msg, error_message, is_archive_err, is_password_err, password_err, password_msg,
    AppError, AppResult,
};
use crate::model::{EntryInfo, EntryTestStatus, TestResult};
use crate::text::{chars_of, concat_string, decimal, decimal_chars, push_chars, push_str, string_from_chars};

verus! {

/// Largest entry that is previewed (RAR entries are read whole into memory).
pub const MAX_PREVIEW_SIZE: u64 = 67108864;

/// `\` replaced by `/`.
pub open spec fn slashes(s: Seq<char>) -> Seq<char> {
    s.map_values(|c: char| if c == '\\' { '/' } else { c })
}

/// RAR separates path components with `\`; the names are shown with `/`.
pub fn normalize(name: &str) -> (r: String)
    ensures
        r@ == slashes(name@),
{
    let cs = chars_of(name);
    let mut out: Vec<char> = Vec::new();
    let mut i: usize = 0;
    while i < cs.len()
        invariant
            i <= cs@.len(),
            cs@ == name@,
            out@ == slashes(cs@.take(i as int)),
        decreases cs.len() - i,
    {
        let c = cs[i];
        out.push(if c == '\\' { '/' } else { c });
        i = i + 1;
        assert(out@ =~= slashes(cs@.take(i as int)));
    }
    assert(cs@.take(i as int) =~= cs@);
    string_from_chars(out.as_slice())
}

/// Days from 1970-01-01 to the given date of the proleptic Gregorian
/// calendar: 365 days a year plus the leap days (every 4th year, but not
/// every 100th, yet every 400th), with the year counted from March so that
/// February comes last.
pub open spec fn civil_days(y: int, m: int, d: int) -> int {
    let yy = if m <= 2 { y - 1 } else { y };
    let mp = if m > 2 { m - 3 } else { m + 9 };
    365 * yy + yy / 4 - yy / 100 + yy / 400 + (153 * mp + 2) / 5 + d - 1 - 719468
}

proof fn lemma_era_split(yy: int, era: int, yoe: int)
    requires
        yy == era * 400 + yoe,
        0 <= yoe < 400,
    ensures
        era * 146097 + yoe * 365 + yoe / 4 - yoe / 100 == 365 * yy + yy / 4 - yy / 100 + yy
            / 400,
{
    assert(yy / 4 == era * 100 + yoe / 4) by (nonlinear_arith)
        requires
            yy == era * 400 + yoe,
            0 <= yoe < 400,
    ;
    assert(yy / 100 == era * 4 + yoe / 100) by (nonlinear_arith)
        requires
            yy == era * 400 + yoe,
            0 <= yoe < 400,
    ;
    assert(yy / 400 == era) by (nonlinear_arith)
        requires
            yy == era * 400 + yoe,
            0 <= yoe < 400,
    ;
}

/// Days since 1970-01-01 of a date (Howard Hinnant's algorithm).
pub fn days_from_civil(y: i32, m: i32, d: i32) -> (r: i64)
    requires
        1 <= m <= 12,
        1 <= d <= 31,
        i32::MIN + 400 <= y,
    ensures
        r == civil_days(y as int, m as int, d as int),
{
    let y = if m <= 2 { y - 1 } else { y };
    let era: i64 = (if y >= 0 { y } else { y - 399 }) as i64 / 400;
    let yoe: i64 = y as i64 - era * 400;
    proof {
        if y >= 0 {
            assert(era == y / 400);
        } else {
            assert(era == -((399 - y) / 400));
            assert(era * 400 <= y < era * 400 + 400) by (nonlinear_arith)
                requires
                    era == -((399 - y) / 400),
                    y < 0,
            ;
        }
        assert(0 <= yoe < 400);
        lemma_era_split(y as int, era as int, yoe as int);
    }
    let mp: i32 = if m > 2 { m - 3 } else { m + 9 };
    let doy: i64 = (153 * mp + 2) as i64 / 5 + d as i64 - 1;
    let doe: i64 = yoe * 365 + yoe / 4 - yoe / 100 + doy;
    era * 146097 + doe - 719468
}

/// The year, month, day, hour, minute and second packed in a DOS timestamp.
pub open spec fn dos_year(t: u32) -> int {
    t as int / 33554432 + 1980
}

pub open spec fn dos_month(t: u32) -> int {
    (t as int / 2097152) % 16
}

pub open spec fn dos_day(t: u32) -> int {
    (t as int / 65536) % 32
}

pub open spec fn dos_hour(t: u32) -> int {
    (t as int / 2048) % 32
}

pub open spec fn dos_minute(t: u32) -> int {
    (t as int / 32) % 64
}

pub open spec fn dos_second(t: u32) -> int {
    (t as int % 32) * 2
}

/// Unix seconds of a DOS timestamp; `None` for 0 and for a month or day out
/// of range.
pub open spec fn dos_to_unix_spec(t: u32) -> Option<u64> {
    if t == 0 {
        None
    } else if !(1 <= dos_month(t) <= 12) || !(1 <= dos_day(t) <= 31) {
        None
    } else {
        Some(
            (civil_days(dos_year(t), dos_month(t), dos_day(t)) * 86400 + dos_hour(t) * 3600
                + dos_minute(t) * 60 + dos_second(t)) as u64,
        )
    }
}

/// A DOS timestamp (as found in RAR headers) as Unix seconds.
pub fn dos_to_unix(t: u32) -> (r: Option<u64>)
    ensures
        r == dos_to_unix_spec(t),
{
    if t == 0 {
        return None;
    }
    assert((t >> 25) & 0x7f == t / 33554432) by (bit_vector);
    assert((t >> 21) & 0x0f == (t / 2097152) % 16) by (bit_vector);
    assert((t >> 16) & 0x1f == (t / 65536) % 32) by (bit_vector);
    assert((t >> 11) & 0x1f == (t / 2048) % 32) by (bit_vector);
    assert((t >> 5) & 0x3f == (t / 32) % 64) by (bit_vector);
    assert(t & 0x1f == t % 32) by (bit_vector);
    let year = ((t >> 25) & 0x7f) as i32 + 1980;
    let month = ((t >> 21) & 0x0f) as i32;
    let day = ((t >> 16) & 0x1f) as i32;
    let hour = ((t >> 11) & 0x1f) as i32;
    let minute = ((t >> 5) & 0x3f) as i32;
    let second = ((t & 0x1f) as i32) * 2;
    if !(1 <= month && month <= 12) || !(1 <= day && day <= 31) {
        return None;
    }
    let days = days_from_civil(year, month, day);
    proof {
        assert(1980 <= year <= 2107);
        assert(civil_days(year as int, month as int, day as int) >= 3000);
        assert(civil_days(year as int, month as int, day as int) <= 60000);
    }
    let secs = days * 86400 + hour as i64 * 3600 + minute as i64 * 60 + second as i64;
    if secs < 0 {
        None
    } else {
        Some(secs as u64)
    }
}

/// The label of a RAR compression method (RAR4 numbers them from 0x30,
/// RAR5 from 0).
pub open spec fn method_name_spec(m: u32) -> Seq<char> {
    let n: int = if m >= 48 { m - 48 } else { m as int };
    if n == 0 {
        "存储"@
    } else if 1 <= n <= 5 {
        "RAR m"@ + decimal(n as nat)
    } else {
        "未知("@ + decimal(m as nat) + ")"@
    }
}

/// The label of a RAR compression method.
pub fn method_name(m: u32) -> (r: String)
    ensures
        r@ == method_name_spec(m),
{
    let n = if m >= 0x30 { m - 0x30 } else { m };
    if n == 0 {
        chars_to_string_lit("存储")
    } else if 1 <= n && n <= 5 {
        let mut v: Vec<char> = Vec::new();
        push_str(&mut v, "RAR m");
        let d = decimal_chars(n as u64);
        push_chars(&mut v, d.as_slice());
        string_from_chars(v.as_slice())
    } else {
        let mut v: Vec<char> = Vec::new();
        push_str(&mut v, "未知(");
        let d = decimal_chars(m as u64);
        push_chars(&mut v, d.as_slice());
        push_str(&mut v, ")");
        string_from_chars(v.as_slice())
    }
}

/// A string holding the text `t`.
fn chars_to_string_lit(t: &str) -> (r: String)
    ensures
        r@ == t@,
{
    let v = chars_of(t);
    string_from_chars(v.as_slice())
}

/// The error codes UnRAR reports, as far as they are told apart.
#[derive(Clone, Copy, Debug, PartialEq, Eq, Structural)]
pub enum RarCode {
    MissingPassword,
    BadPassword,
    BadData,
    BadArchive,
    UnknownFormat,
    EOpen,
    Other,
}

/// A password that has content (an empty one counts as none).
pub open spec fn has_pw(password: Option<Seq<char>>) -> bool {
    password matches Some(p) && p.len() > 0
}

/// The password as text, if any.
pub open spec fn opt_view(password: Option<&str>) -> Option<Seq<char>> {
    match password {
        Some(p) => Some(p@),
        None => None,
    }
}

/// How an UnRAR failure is reported. With a password given, damaged data is
/// reported as a password problem: UnRAR reports the same CRC error for both.
pub open spec fn rar_error_spec(
    e: AppError,
    code: RarCode,
    detail: Seq<char>,
    password: Option<Seq<char>>,
) -> bool {
    match code {
        RarCode::MissingPassword => is_password_err(e, "该 RAR 已加密，请提供密码"@),
        RarCode::BadPassword => is_password_err(e, "密码错误，无法解压 RAR"@),
        RarCode::BadData | RarCode::BadArchive => if has_pw(password) {
            is_password_err(e, "密码错误或文件已损坏（RAR 两者报同样的 CRC 错误）: "@ + detail)
        } else {
            is_archive_err(e, "RAR 文件损坏: "@ + detail)
        },
        RarCode::UnknownFormat => is_archive_err(e, "不是有效的 RAR 文件（可能是分卷中间卷）"@),
        RarCode::EOpen => is_archive_err(e, "无法打开 RAR: "@ + detail),
        RarCode::Other => is_archive_err(e, "RAR 处理失败: "@ + detail),
    }
}

/// The message of the error a RAR failure is reported as.
pub open spec fn rar_error_text(code: RarCode, detail: Seq<char>, password: Option<Seq<char>>) -> Seq<
    char,
> {
    let pw = "密码错误或损坏的压缩包: "@;
    let ar = "压缩/解压错误: "@;
    match code {
        RarCode::MissingPassword => pw + "该 RAR 已加密，请提供密码"@,
        RarCode::BadPassword => pw + "密码错误，无法解压 RAR"@,
        RarCode::BadData | RarCode::BadArchive => if has_pw(password) {
            pw + ("密码错误或文件已损坏（RAR 两者报同样的 CRC 错误）: "@ + detail)
        } else {
            ar + ("RAR 文件损坏: "@ + detail)
        },
        RarCode::UnknownFormat => ar + "不是有效的 RAR 文件（可能是分卷中间卷）"@,
        RarCode::EOpen => ar + ("无法打开 RAR: "@ + detail),
        RarCode::Other => ar + ("RAR 处理失败: "@ + detail),
    }
}

/// The message of the error a RAR failure is classified as.
pub proof fn lemma_rar_error_text(e: AppError, code: RarCode, detail: Seq<char>, password: Option<Seq<char>>)
    requires
        rar_error_spec(e, code, detail, password),
    ensures
        error_message(e) == rar_error_text(code, detail, password),
{
}

/// Whether a password has content.
pub fn has_password(password: Option<&str>) -> (b: bool)
    ensures
        b == has_pw(opt_view(password)),
{
    match password {
        Some(p) => !p.is_empty(),
        None => false,
    }
}

/// Classifies an UnRAR failure (`detail` is UnRAR's own description).
pub fn map_err(code: RarCode, detail: &str, password: Option<&str>) -> (e: AppError)
    ensures
        rar_error_spec(e, code, detail@, opt_view(password)),
{
    let has_pw = has_password(password);
    match code {
        RarCode::MissingPassword => password_msg("该 RAR 已加密，请提供密码"),
        RarCode::BadPassword => password_msg("密码错误，无法解压 RAR"),
        RarCode::BadData | RarCode::BadArchive => {
            if has_pw {
                password_err("密码错误或文件已损坏（RAR 两者报同样的 CRC 错误）: ", detail)
            } else {
                archive_err("RAR 文件损坏: ", detail)
            }
        },
        RarCode::UnknownFormat => archive_msg("不是有效的 RAR 文件（可能是分卷中间卷）"),
        RarCode::EOpen => archive_err("无法打开 RAR: ", detail),
        RarCode::Other => archive_err("RAR 处理失败: ", detail),
    }
}

/// A RAR file header, as UnRAR reports it (the name already as text).
pub struct RarHeader {
    pub filename: String,
    pub unpacked_size: u64,
    pub is_dir: bool,
    pub file_time: u32,
    pub method: u32,
}

/// An UnRAR failure: its code and its own description.
pub struct RarFailure {
    pub code: RarCode,
    pub detail: String,
}

/// The entry shown for a RAR header (UnRAR does not report packed sizes).
pub open spec fn rar_entry_spec(h: RarHeader, e: EntryInfo) -> bool {
    &&& e.name@ == slashes(h.filename@)
    &&& e.size == h.unpacked_size
    &&& e.compressed_size is None
    &&& e.is_dir == h.is_dir
    &&& e.modified == dos_to_unix_spec(h.file_time)
    &&& e.method matches Some(m) && m@ == method_name_spec(h.method)
}

/// The entry for one RAR header.
pub fn rar_entry(h: &RarHeader) -> (e: EntryInfo)
    ensures
        rar_entry_spec(*h, e),
{
    EntryInfo {
        name: normalize(h.filename.as_str()),
        size: h.unpacked_size,
        compressed_size: None,
        is_dir: h.is_dir,
        modified: dos_to_unix(h.file_time),
        method: Some(method_name(h.method)),
    }
}

/// Lists a RAR archive from the headers UnRAR read in order; the first
/// failure ends the listing with its classified error.
pub fn list_rar(items: &Vec<Result<RarHeader, RarFailure>>, password: Option<&str>) -> (r: AppResult<
    Vec<EntryInfo>,
>)
    ensures
        match r {
            Ok(v) => {
                &&& forall|i: int| 0 <= i < items@.len() ==> (#[trigger] items@[i]) is Ok
                &&& v@.len() == items@.len()
                &&& forall|i: int|
                    0 <= i < items@.len() ==> rar_entry_spec(items@[i]->Ok_0, #[trigger] v@[i])
            },
            Err(e) => exists|k: int|
                #![trigger items@[k]]
                0 <= k < items@.len() && items@[k] is Err && (forall|j: int|
                    0 <= j < k ==> (#[trigger] items@[j]) is Ok) && rar_error_spec(
                    e,
                    items@[k]->Err_0.code,
                    items@[k]->Err_0.detail@,
                    opt_view(password),
                ),
        },
{
    let mut out: Vec<EntryInfo> = Vec::new();
    let mut i: usize = 0;
    while i < items.len()
        invariant
            i <= items@.len(),
            out@.len() == i,
            forall|j: int| 0 <= j < i ==> (#[trigger] items@[j]) is Ok,
            forall|j: int| 0 <= j < i ==> rar_entry_spec(items@[j]->Ok_0, #[trigger] out@[j]),
        decreases items.len() - i,
    {
        match &items[i] {
            Ok(h) => {
                out.push(rar_entry(h));
            },
            Err(f) => {
                let e = map_err(f.code, f.detail.as_str(), password);
                assert(items@[i as int] is Err);
                return Err(e);
            },
        }
        i = i + 1;
    }
    Ok(out)
}

/// An empty, passing integrity report.
pub fn new_test_result() -> (t: TestResult)
    ensures
        t.ok,
        t.entries@.len() == 0,
{
    TestResult { ok: true, entries: Vec::new() }
}

/// One step of a RAR integrity check: a directory entry was skipped, a file
/// entry was tested, with `failure` telling whether that went wrong. A tested
/// file is recorded; any failure is recorded, marks the report failed and
/// ends the check (the cursor cannot be trusted after it). Returns whether
/// to go on.
pub fn test_rar_step(
    state: &mut TestResult,
    name: String,
    is_dir: bool,
    failure: Option<RarFailure>,
    password: Option<&str>,
) -> (go_on: bool)
    ensures
        go_on == (failure is None),
        match failure {
            None => {
                &&& final(state).ok == old(state).ok
                &&& if is_dir {
                    final(state).entries@ == old(state).entries@
                } else {
                    &&& final(state).entries@.len() == old(state).entries@.len() + 1
                    &&& final(state).entries@.drop_last() == old(state).entries@
                    &&& final(state).entries@.last().name@ == name@
                    &&& final(state).entries@.last().ok
                    &&& final(state).entries@.last().error is None
                }
            },
            Some(f) => {
                &&& !final(state).ok
                &&& final(state).entries@.len() == old(state).entries@.len() + 1
                &&& final(state).entries@.drop_last() == old(state).entries@
                &&& final(state).entries@.last().name@ == name@
                &&& !final(state).entries@.last().ok
                &&& final(state).entries@.last().error matches Some(m)
                &&& m@ == rar_error_text(f.code, f.detail@, opt_view(password))
            },
        },
{
    match failure {
        None => {
            if !is_dir {
                state.entries.push(EntryTestStatus { name, ok: true, error: None });
            }
            true
        },
        Some(f) => {
            let e = map_err(f.code, f.detail.as_str(), password);
            proof {
                lemma_rar_error_text(e, f.code, f.detail@, opt_view(password));
            }
            state.ok = false;
            state.entries.push(EntryTestStatus { name, ok: false, error: Some(e.message()) });
            false
        },
    }
}

/// What to do with a RAR entry while looking for the one to preview.
pub enum RarPreviewStep {
    /// Not the entry sought: skip it.
    Skip,
    /// The entry sought, but it cannot be previewed.
    Fail(AppError),
    /// The entry sought: read it whole and preview it.
    Read,
}

/// Decides about one RAR entry (`name` already normalised) while looking for
/// `entry`: skip other entries, refuse directories and entries larger than
/// `MAX_PREVIEW_SIZE`, and read the rest.
pub fn preview_rar_step(name: &str, entry: &str, is_dir: bool, unpacked_size: u64) -> (r:
    RarPreviewStep)
    ensures
        name@ != entry@ ==> r is Skip,
        name@ == entry@ && is_dir ==> (r matches RarPreviewStep::Fail(e) && is_archive_err(
            e,
            "该条目是目录，无法预览"@,
        )),
        name@ == entry@ && !is_dir && unpacked_size > MAX_PREVIEW_SIZE ==> (r matches RarPreviewStep::Fail(
            e,
        ) && is_archive_err(e, "该条目超过 "@ + decimal(64) + " MB，请先解压后再查看"@)),
        name@ == entry@ && !is_dir && unpacked_size <= MAX_PREVIEW_SIZE ==> r is Read,
{
    let nc = chars_of(name);
    if !crate::text::eq_str(nc.as_slice(), entry) {
        return RarPreviewStep::Skip;
    }
    if is_dir {
        return RarPreviewStep::Fail(archive_msg("该条目是目录，无法预览"));
    }
    if unpacked_size > MAX_PREVIEW_SIZE {
        let mut v: Vec<char> = Vec::new();
        push_str(&mut v, "该条目超过 ");
        let d = decimal_chars(MAX_PREVIEW_SIZE / 1024 / 1024);
        push_chars(&mut v, d.as_slice());
        push_str(&mut v, " MB，请先解压后再查看");
        let s = string_from_chars(v.as_slice());
        return RarPreviewStep::Fail(AppError::Archive(s));
    }
    RarPreviewStep::Read
}

/// A check report as plain values: whether all passed, and per entry its
/// name, whether it passed, and the error's text.
pub type TestView = (bool, Seq<(Seq<char>, bool, Option<Seq<char>>)>);

/// The text of an optional message.
pub open spec fn opt_text(m: Option<String>) -> Option<Seq<char>> {
    match m {
        Some(x) => Some(x@),
        None => None,
    }
}

/// One entry's check result as plain values.
pub open spec fn status_view(s: EntryTestStatus) -> (Seq<char>, bool, Option<Seq<char>>) {
    (s.name@, s.ok, opt_text(s.error))
}

/// A check report as plain values.
pub open spec fn test_view(t: TestResult) -> TestView {
    (t.ok, t.entries@.map_values(|s: EntryTestStatus| status_view(s)))
}

/// One RAR entry as the integrity check met it: its (normalised) name,
/// whether it is a directory, and the failure of skipping or testing it.
pub struct RarTestItem {
    pub name: String,
    pub is_dir: bool,
    pub failure: Option<RarFailure>,
}

/// The report of a RAR integrity check over the entries met, in order:
/// directories are passed over, files are recorded as passing, and the
/// first failure is recorded, fails the report and ends the check.
pub open spec fn rar_tested(items: Seq<RarTestItem>, password: Option<Seq<char>>) -> TestView
    decreases items.len(),
{
    if items.len() == 0 {
        (true, Seq::empty())
    } else {
        let prev = rar_tested(items.drop_last(), password);
        let it = items.last();
        if !prev.0 {
            prev
        } else {
            match it.failure {
                None => if it.is_dir {
                    prev
                } else {
                    (true, prev.1.push((it.name@, true, None)))
                },
                Some(f) => (
                    false,
                    prev.1.push((it.name@, false, Some(rar_error_text(f.code, f.detail@, password)))),
                ),
            }
        }
    }
}

proof fn lemma_rar_tested_stops(items: Seq<RarTestItem>, k: int, password: Option<Seq<char>>)
    requires
        0 <= k <= items.len(),
        !rar_tested(items.take(k), password).0,
    ensures
        rar_tested(items, password) == rar_tested(items.take(k), password),
    decreases items.len() - k,
{
    if k < items.len() {
        assert(items.take(k + 1).drop_last() =~= items.take(k));
        lemma_rar_tested_stops(items, k + 1, password);
    } else {
        assert(items.take(k) =~= items);
    }
}

/// Checks a RAR archive from the entries UnRAR met, in order, up to the
/// first failure.
pub fn test_rar(items: &Vec<RarTestItem>, password: Option<&str>) -> (t: TestResult)
    ensures
        test_view(t) == rar_tested(items@, opt_view(password)),
{
    let ghost pw = opt_view(password);
    let mut t = new_test_result();
    let mut go_on = true;
    let mut i: usize = 0;
    assert(test_view(t).1 =~= Seq::<(Seq<char>, bool, Option<Seq<char>>)>::empty());
    assert(items@.take(0) =~= Seq::<RarTestItem>::empty());
    while go_on && i < items.len()
        invariant
            i <= items@.len(),
            pw == opt_view(password),
            test_view(t) == rar_tested(items@.take(i as int), pw),
            go_on == t.ok,
        decreases items.len() - i,
    {
        let it = &items[i];
        let f = match &it.failure {
            Some(x) => Some(RarFailure { code: x.code, detail: x.detail.clone() }),
            None => None,
        };
        let ghost before = t;
        go_on = test_rar_step(&mut t, it.name.clone(), it.is_dir, f, password);
        proof {
            assert(items@.take(i + 1).drop_last() =~= items@.take(i as int));
            assert(items@.take(i + 1).last() == items@[i as int]);
            let ev = t.entries@;
            let bv = before.entries@;
            if ev.len() == bv.len() + 1 {
                assert forall|j: int| 0 <= j < bv.len() implies ev[j] == bv[j] by {
                    assert(ev.drop_last()[j] == ev[j]);
                }
                assert(test_view(t).1 =~= test_view(before).1.push(status_view(ev.last())));
            } else {
                assert(ev =~= bv);
            }
        }
        i = i + 1;
    }
    proof {
        if !go_on {
            lemma_rar_tested_stops(items@, i as int, pw);
        } else {
            assert(items@.take(i as int) =~= items@);
        }
    }
    t
}

/// Law: a RAR integrity report passes exactly when none of the entries met
/// failed, and it never holds more results than entries were met.
pub proof fn law_rar_report_passes_iff_no_failure(items: Seq<RarTestItem>, password: Option<Seq<char>>)
    ensures
        rar_tested(items, password).0 <==> (forall|i: int|
            0 <= i < items.len() ==> (#[trigger] items[i]).failure is None),
        rar_tested(items, password).1.len() <= items.len(),
    decreases items.len(),
{
    if items.len() > 0 {
        law_rar_report_passes_iff_no_failure(items.drop_last(), password);
        let prev = items.drop_last();
        if rar_tested(items, password).0 {
            assert forall|i: int| 0 <= i < items.len() implies (#[trigger] items[i]).failure is None by {
                if i < items.len() - 1 {
                    assert(prev[i] == items[i]);
                }
            }
        }
        if forall|i: int| 0 <= i < items.len() ==> (#[trigger] items[i]).failure is None {
            assert forall|i: int| 0 <= i < prev.len() implies (#[trigger] prev[i]).failure is None by {
                assert(prev[i] == items[i]);
            }
            assert(items[items.len() - 1].failure is None);
        }
    }
}

/// Whether `unrar` takes a file name for a volume of a multi-volume set.
pub uninterp spec fn rar_is_multipart(archive: Seq<char>) -> bool;

/// The name `unrar` gives the first volume of the set a volume belongs to.
pub uninterp spec fn rar_first_part(archive: Seq<char>) -> Seq<char>;

/// `unrar::Archive::is_multipart` (unrar crate), which its documentation
/// says works on the file name alone, without touching the disk.
#[verifier::external_body]
fn is_multipart_name(archive: &str) -> (b: bool)
    ensures
        b == rar_is_multipart(archive@),
{
    unrar::Archive::new(archive).is_multipart()
}

/// `unrar::Archive::first_part` (unrar crate), which its documentation says
/// works on the file name alone, without touching the disk.
#[verifier::external_body]
fn first_part_name(archive: &str) -> (r: String)
    ensures
        r@ == rar_first_part(archive@),
{
    unrar::Archive::new(archive).first_part().to_string_lossy().to_string()
}

/// The first volume of the multi-volume set `archive` belongs to, when its
/// name is that of a volume.
pub fn first_volume(archive: &str) -> (r: Option<String>)
    ensures
        rar_is_multipart(archive@) ==> (r matches Some(f) && f@ == rar_first_part(archive@)),
        !rar_is_multipart(archive@) ==> r is None,
{
    if is_multipart_name(archive) {
        Some(first_part_name(archive))
    } else {
        None
    }
}

/// The file to read a RAR archive from: a multi-volume set is read from
/// its first volume (`first`, which exists or not), which must be there;
/// any other archive from itself.
pub fn resolve_first_part(archive: &str, first: Option<String>, first_exists: bool) -> (r: AppResult<String>)
    ensures
        match first {
            None => r matches Ok(p) && p@ == archive@,
            Some(f) => if first_exists {
                r matches Ok(p) && p@ == f@
            } else {
                r matches Err(e) && is_archive_err(
                    e,
                    "分卷不完整：找不到第一卷 "@ + f@ + "，请把整个分卷系列放在一起后打开第一卷"@,
                )
            },
        },
{
    match first {
        None => Ok(archive.to_owned()),
        Some(f) => if first_exists {
            Ok(f)
        } else {
            let mut v: Vec<char> = Vec::new();
            push_str(&mut v, "分卷不完整：找不到第一卷 ");
            push_str(&mut v, f.as_str());
            push_str(&mut v, "，请把整个分卷系列放在一起后打开第一卷");
            Err(AppError::Archive(string_from_chars(v.as_slice())))
        },
    }
}


/// Law: a normalised RAR name has the same length as the stored one, no
/// `\` left, every `\` turned into `/` and every other character kept.
pub proof fn law_normalize_only_turns_backslashes(name: Seq<char>)
    ensures
        slashes(name).len() == name.len(),
        !slashes(name).contains('\\'),
        forall|i: int| 0 <= i < name.len() ==> #[trigger] slashes(name)[i] == if name[i] == '\\' {
            '/'
        } else {
            name[i]
        },
{
    if slashes(name).contains('\\') {
        let j = choose|j: int| 0 <= j < slashes(name).len() && slashes(name)[j] == '\\';
    }
}

} // verus!
