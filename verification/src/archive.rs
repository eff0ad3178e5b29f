//! Decisions shared by the archive engines: which inputs are left out, which
//! engine handles a format, compression levels, Unix modes, and how engine
//! failures are reported.

use vstd::prelude::*;

use crate::error::{
    archive_err, is_archive_err, is_password_err, is_unsupported_err, password_err, password_msg,
    unsupported_err, unsupported_msg, AppError, AppResult,
};
use crate::model::{from_ext_spec, from_str_spec, ArchiveFormat};
use crate::paths::{file_name, file_name_exec};
use crate::text::{
    chars_of, ends_with, lower, lowercase, matches_at, starts_with, strs, trim_chars, trim_ws,
};

verus! {

/// The directory a pattern names: the pattern without one trailing `/`
/// (`node_modules/` names `node_modules`).
pub open spec fn pattern_dir(p: Seq<char>) -> Seq<char> {
    if p.len() > 0 && p.last() == '/' {
        p.drop_last()
    } else {
        p
    }
}

/// One exclusion pattern, already trimmed and lower-cased, matches the
/// lower-cased relative name: as a suffix, or as the directory it names
/// (written with or without a trailing `/`), that directory itself or
/// anything under it.
pub open spec fn pattern_matches(l: Seq<char>, p: Seq<char>) -> bool {
    let d = pattern_dir(p);
    p.len() > 0 && (ends_with(l, p) || (d.len() > 0 && (l == d || starts_with(l, d.push('/')))))
}

/// Whether an input is left out of an archive: a hidden name (its last
/// component starts with `.`) unless hidden files are wanted, or a match of
/// any exclusion pattern, compared case-insensitively after trimming.
pub open spec fn should_exclude_spec(
    rel_name: Seq<char>,
    exclude: Seq<Seq<char>>,
    compress_hidden: bool,
) -> bool {
    let leaf = match file_name(rel_name) {
        Some(n) => n,
        None => Seq::<char>::empty(),
    };
    ||| !compress_hidden && leaf.len() > 0 && leaf[0] == '.'
    ||| exists|i: int|
        0 <= i < exclude.len() && pattern_matches(
            lower(rel_name),
            lower(trim_ws(#[trigger] exclude[i])),
        )
}

fn pattern_matches_exec(l: &[char], p: &[char]) -> (b: bool)
    ensures
        b == pattern_matches(l@, p@),
{
    if p.len() == 0 {
        return false;
    }
    if p.len() <= l.len() && matches_at(l, l.len() - p.len(), p) {
        return true;
    }
    let dlen: usize = if p[p.len() - 1] == '/' { p.len() - 1 } else { p.len() };
    let mut d: Vec<char> = Vec::new();
    let mut k: usize = 0;
    while k < dlen
        invariant
            k <= dlen <= p@.len(),
            d@ == p@.subrange(0, k as int),
        decreases dlen - k,
    {
        d.push(p[k]);
        k = k + 1;
        assert(d@ =~= p@.subrange(0, k as int));
    }
    assert(d@ =~= pattern_dir(p@));
    if d.len() == 0 {
        return false;
    }
    if d.len() == l.len() && matches_at(l, 0, d.as_slice()) {
        assert(l@.subrange(0, l@.len() as int) =~= l@);
        return true;
    }
    d.push('/');
    let r = matches_at(l, 0, d.as_slice());
    proof {
        if pattern_dir(p@).len() == l@.len() && l@ == pattern_dir(p@) {
            assert(l@.subrange(0, l@.len() as int) =~= l@);
        }
    }
    r
}

/// Whether the input `rel_name` (relative to its base, `/`-separated) is
/// left out when compressing.
pub fn should_exclude(rel_name: &str, exclude: &[String], compress_hidden: bool) -> (b: bool)
    ensures
        b == should_exclude_spec(rel_name@, strs(exclude@), compress_hidden),
{
    let ghost ex = strs(exclude@);
    let rc = chars_of(rel_name);
    if !compress_hidden {
        let leaf_hidden = match file_name_exec(rc.as_slice()) {
            Some(n) => n.len() > 0 && n[0] == '.',
            None => false,
        };
        if leaf_hidden {
            return true;
        }
    }
    let lc = lowercase(rc.as_slice());
    let mut i: usize = 0;
    while i < exclude.len()
        invariant
            i <= exclude@.len(),
            ex == strs(exclude@),
            lc@ == lower(rel_name@),
            forall|j: int|
                0 <= j < i ==> !pattern_matches(lower(rel_name@), lower(trim_ws(#[trigger] ex[j]))),
        decreases exclude.len() - i,
    {
        let pc = chars_of(exclude[i].as_str());
        let pt = trim_chars(pc.as_slice());
        let pl = lowercase(pt.as_slice());
        if pattern_matches_exec(lc.as_slice(), pl.as_slice()) {
            assert(pattern_matches(lower(rel_name@), lower(trim_ws(ex[i as int]))));
            return true;
        }
        i = i + 1;
    }
    false
}

/// The format of an archive to read, from its name; an error names the file
/// when the extension is not recognised.
pub fn detect_format(archive: &str) -> (r: AppResult<ArchiveFormat>)
    ensures
        match r {
            Ok(f) => from_ext_spec(archive@) == Some(f),
            Err(e) => from_ext_spec(archive@) is None && is_unsupported_err(
                e,
                "无法识别压缩格式: "@ + archive@,
            ),
        },
{
    match ArchiveFormat::from_ext(archive) {
        Some(f) => Ok(f),
        None => Err(unsupported_err("无法识别压缩格式: ", archive)),
    }
}

/// The engine that handles a format.
#[derive(Clone, Copy, Debug, PartialEq, Eq, Structural)]
pub enum Engine {
    Zip,
    SevenZip,
    /// A single compressed stream (`.gz`, `.bz2`, `.xz`, `.zst`).
    Single,
    /// A tarball, compressed by the format's codec.
    Tar,
    Rar,
}

/// Which engine handles a format.
pub open spec fn engine_spec(f: ArchiveFormat) -> Engine {
    match f {
        ArchiveFormat::Zip => Engine::Zip,
        ArchiveFormat::SevenZip => Engine::SevenZip,
        ArchiveFormat::Gz | ArchiveFormat::Bz2 | ArchiveFormat::Xz | ArchiveFormat::Zstd => Engine::Single,
        ArchiveFormat::Rar => Engine::Rar,
        _ => Engine::Tar,
    }
}

/// The engine that handles `f`.
pub fn engine_of(f: ArchiveFormat) -> (e: Engine)
    ensures
        e == engine_spec(f),
{
    match f {
        ArchiveFormat::Zip => Engine::Zip,
        ArchiveFormat::SevenZip => Engine::SevenZip,
        ArchiveFormat::Gz | ArchiveFormat::Bz2 | ArchiveFormat::Xz | ArchiveFormat::Zstd => Engine::Single,
        ArchiveFormat::Rar => Engine::Rar,
        _ => Engine::Tar,
    }
}

/// The message refusing to create RAR archives.
pub open spec fn rar_refusal() -> Seq<char> {
    "RAR 是 win.rar 的专有格式，编码器从未开源授权，无法创建 RAR；请选择 zip 或 7z"@
}

/// The format to compress into, parsed from its name; RAR is refused since
/// its encoder is proprietary.
pub fn compress_format(format: &str) -> (r: AppResult<ArchiveFormat>)
    ensures
        match from_str_spec(format@) {
            None => r matches Err(e) && is_unsupported_err(e, "不支持的格式: "@ + format@),
            Some(ArchiveFormat::Rar) => r matches Err(e) && is_unsupported_err(e, rar_refusal()),
            Some(f) => r == Ok::<ArchiveFormat, AppError>(f),
        },
{
    match ArchiveFormat::from_str(format) {
        None => Err(unsupported_err("不支持的格式: ", format)),
        Some(ArchiveFormat::Rar) => Err(
            unsupported_msg(
                "RAR 是 win.rar 的专有格式，编码器从未开源授权，无法创建 RAR；请选择 zip 或 7z",
            ),
        ),
        Some(f) => Ok(f),
    }
}

/// Law: a pattern naming a directory with a trailing `/` (such as
/// `node_modules/`) leaves out that directory and everything under it,
/// whatever the case of the names.
pub proof fn law_directory_pattern_excludes_tree(
    rel_name: Seq<char>,
    exclude: Seq<Seq<char>>,
    compress_hidden: bool,
    i: int,
    dir: Seq<char>,
)
    requires
        0 <= i < exclude.len(),
        dir.len() > 0,
        lower(trim_ws(exclude[i])) == dir.push('/'),
        lower(rel_name) == dir || starts_with(lower(rel_name), dir.push('/')),
    ensures
        should_exclude_spec(rel_name, exclude, compress_hidden),
{
    assert(dir.push('/').drop_last() =~= dir);
    assert(pattern_dir(dir.push('/')) == dir);
    assert(pattern_matches(lower(rel_name), lower(trim_ws(exclude[i]))));
}

/// Law: no format name ever leads to writing a RAR archive.
pub proof fn law_rar_never_written(format: Seq<char>, r: AppResult<ArchiveFormat>)
    requires
        match from_str_spec(format) {
            None => r matches Err(e) && is_unsupported_err(e, "不支持的格式: "@ + format),
            Some(ArchiveFormat::Rar) => r matches Err(e) && is_unsupported_err(e, rar_refusal()),
            Some(f) => r == Ok::<ArchiveFormat, AppError>(f),
        },
    ensures
        !(r matches Ok(f) && engine_spec(f) == Engine::Rar),
{
}

/// A compression level clamped to 0..=9.
pub fn clamp_level(level: u8) -> (r: i64)
    ensures
        r == if level > 9 { 9 } else { level as int },
{
    if level > 9 {
        9
    } else {
        level as i64
    }
}

/// The Unix mode stored for a regular file: its permission bits with the
/// regular-file type bits.
pub fn file_mode(mode: u32) -> (r: u32)
    ensures
        r == (mode & 0o7777u32) | 0o100000u32,
{
    (mode & 0o7777) | 0o100000
}

/// The Unix mode stored for a directory: its permission bits with the
/// directory type bits.
pub fn dir_mode(mode: u32) -> (r: u32)
    ensures
        r == (mode & 0o7777u32) | 0o040000u32,
{
    (mode & 0o7777) | 0o040000
}

/// Whether a stored Unix mode marks a symbolic link.
pub fn is_symlink_mode(mode: u32) -> (b: bool)
    ensures
        b == (mode & 0o170000u32 == 0o120000u32),
{
    mode & 0o170000 == 0o120000
}

/// The permission bits of a stored Unix mode.
pub fn permission_bits(mode: u32) -> (r: u32)
    ensures
        r == mode & 0o7777u32,
{
    mode & 0o7777
}

/// Law: the mode handed to the zip writer for a file or a directory keeps
/// the input's permission bits, which reading the mode back gives again,
/// and the mode of a regular file is never taken for a symbolic link.
pub proof fn law_file_mode_roundtrip(mode: u32)
    ensures
        ((mode & 0o7777u32) | 0o100000u32) & 0o7777u32 == mode & 0o7777u32,
        ((mode & 0o7777u32) | 0o100000u32) & 0o170000u32 != 0o120000u32,
        ((mode & 0o7777u32) | 0o040000u32) & 0o7777u32 == mode & 0o7777u32,
{
    assert(((mode & 0o7777u32) | 0o100000u32) & 0o7777u32 == mode & 0o7777u32) by (bit_vector);
    assert(((mode & 0o7777u32) | 0o100000u32) & 0o170000u32 != 0o120000u32) by (bit_vector);
    assert(((mode & 0o7777u32) | 0o040000u32) & 0o7777u32 == mode & 0o7777u32) by (bit_vector);
}

/// How 7z failures are told apart.
pub enum SevenZFailure {
    /// The archive is encrypted and no password was given.
    PasswordRequired,
    /// The data did not decrypt (wrong password or damage); the I/O error text.
    MaybeBadPassword(String),
    /// Any other failure, with its text.
    Other(String),
}

/// How a 7z failure is reported; `ctx` says what was being done.
pub open spec fn sevenz_error_spec(e: AppError, f: SevenZFailure, ctx: Seq<char>) -> bool {
    match f {
        SevenZFailure::PasswordRequired => is_password_err(e, "该 7z 已加密，请提供密码"@),
        SevenZFailure::MaybeBadPassword(io) => is_password_err(e, "密码错误或文件已损坏: "@ + io@),
        SevenZFailure::Other(t) => is_archive_err(e, ctx + ": "@ + t@),
    }
}

/// Classifies a 7z failure.
pub fn map_7z_err(f: SevenZFailure, ctx: &str) -> (e: AppError)
    ensures
        sevenz_error_spec(e, f, ctx@),
{
    match f {
        SevenZFailure::PasswordRequired => password_msg("该 7z 已加密，请提供密码"),
        SevenZFailure::MaybeBadPassword(io) => password_err("密码错误或文件已损坏: ", io.as_str()),
        SevenZFailure::Other(t) => {
            let mut v: Vec<char> = chars_of(ctx);
            crate::text::push_str(&mut v, ": ");
            let tc = chars_of(t.as_str());
            crate::text::push_chars(&mut v, tc.as_slice());
            AppError::Archive(crate::text::string_from_chars(v.as_slice()))
        },
    }
}

/// The bundled 7z binary, or the error explaining that the formats it
/// handles are unavailable.
pub fn require_bin(bin: Option<String>) -> (r: AppResult<String>)
    ensures
        match bin {
            Some(b) => r matches Ok(s) && s@ == b@,
            None => r matches Err(e) && is_unsupported_err(
                e,
                "7z 引擎未初始化（内置 7z 二进制缺失，iso/cab/dmg 等格式不可用）"@,
            ),
        },
{
    match bin {
        Some(b) => Ok(b),
        None => Err(
            unsupported_msg("7z 引擎未初始化（内置 7z 二进制缺失，iso/cab/dmg 等格式不可用）"),
        ),
    }
}

/// The "entry not found" error of the previews.
pub fn entry_not_found(entry: &str) -> (e: AppError)
    ensures
        is_archive_err(e, "未找到条目: "@ + entry@),
{
    archive_err("未找到条目: ", entry)
}

} // verus!
