//! Editing archives in place: which archives can be changed, and the names
//! of the temporary files and directories involved. Extracting and
//! re-packing happen at the edge of the program.

use vstd::prelude::*;

use crate::archive::{engine_spec, Engine};
use crate::error::{archive_err, archive_msg, is_archive_err, is_unsupported_err, unsupported_err, unsupported_msg, AppError, AppResult};
use crate::model::{as_str_spec, from_ext_spec, ArchiveFormat};
use crate::paths::{last_start, sanitize, sanitize_spec};
use crate::text::{chars_of, concat_string, last_index_of, lemma_last_index_bounds, rfind_char, string_from_chars};

verus! {

/// An entry name made safe to place under a directory (no empty, `.` or `..`
/// pieces).
pub fn sanitize_name(name: &str) -> (r: String)
    ensures
        r@ == sanitize_spec(name@),
{
    sanitize(name)
}

/// The format of an archive being re-packed after an edit.
pub fn edit_format(archive: &str) -> (r: AppResult<ArchiveFormat>)
    ensures
        match from_ext_spec(archive@) {
            Some(f) => r == Ok::<ArchiveFormat, crate::error::AppError>(f),
            None => r matches Err(e) && is_unsupported_err(e, "无法识别: "@ + archive@),
        },
{
    match ArchiveFormat::from_ext(archive) {
        Some(f) => Ok(f),
        None => Err(unsupported_err("无法识别: ", archive)),
    }
}

/// The format of an archive whose entries are deleted or renamed: RAR is
/// read-only.
pub fn editable_format(archive: &str) -> (r: AppResult<ArchiveFormat>)
    ensures
        match from_ext_spec(archive@) {
            None => r matches Err(e) && is_unsupported_err(e, "无法识别: "@ + archive@),
            Some(ArchiveFormat::Rar) => r matches Err(e) && is_unsupported_err(
                e,
                "RAR 为只读格式，不支持增删改"@,
            ),
            Some(f) => r == Ok::<ArchiveFormat, crate::error::AppError>(f),
        },
{
    let f = edit_format(archive)?;
    if f == ArchiveFormat::Rar {
        return Err(unsupported_msg("RAR 为只读格式，不支持增删改"));
    }
    Ok(f)
}

/// The format of an archive that files are added to: RAR is read-only and
/// a single-stream format holds only one file.
pub fn addable_format(archive: &str) -> (r: AppResult<ArchiveFormat>)
    ensures
        match from_ext_spec(archive@) {
            None => r matches Err(e) && is_unsupported_err(e, "无法识别: "@ + archive@),
            Some(ArchiveFormat::Rar) => r matches Err(e) && is_unsupported_err(
                e,
                "RAR 为只读格式，不支持增删改"@,
            ),
            Some(f) => if engine_spec(f) == Engine::Single {
                r matches Err(e) && is_unsupported_err(
                    e,
                    as_str_spec(f) + " 为单文件流格式，不支持添加多个条目"@,
                )
            } else {
                r == Ok::<ArchiveFormat, crate::error::AppError>(f)
            },
        },
{
    let f = editable_format(archive)?;
    match f {
        ArchiveFormat::Gz | ArchiveFormat::Bz2 | ArchiveFormat::Xz | ArchiveFormat::Zstd => {
            let mut v = chars_of(f.as_str());
            crate::text::push_str(&mut v, " 为单文件流格式，不支持添加多个条目");
            Err(crate::error::AppError::UnsupportedFormat(string_from_chars(v.as_slice())))
        },
        _ => Ok(f),
    }
}

/// The directory an archive is re-packed in for the edit session `id`.
pub fn rebuild_dir_name(id: &str) -> (r: String)
    ensures
        r@ == id@ + "-rebuild"@,
{
    concat_string(id, "-rebuild")
}

/// The name the temporary copy of an edited entry gets: the entry's last
/// piece (so that the right application opens it), `edited.bin` when that
/// is empty, sanitised.
pub open spec fn edit_file_name_spec(entry: Seq<char>) -> Seq<char> {
    let base = entry.skip(last_index_of(entry, '/') + 1);
    sanitize_spec(if base.len() == 0 { "edited.bin"@ } else { base })
}

/// Name of the temporary copy of the edited entry `entry`.
pub fn edit_file_name(entry: &str) -> (r: String)
    ensures
        r@ == edit_file_name_spec(entry@),
{
    let ec = chars_of(entry);
    proof {
        lemma_last_index_bounds(entry@, '/');
    }
    let n = ec.len();
    let start = match rfind_char(ec.as_slice(), '/') {
        Some(i) => i + 1,
        None => 0,
    };
    let mut base: Vec<char> = Vec::new();
    let mut i = start;
    while i < n
        invariant
            start <= i <= n,
            n == ec@.len(),
            base@ == ec@.subrange(start as int, i as int),
        decreases n - i,
    {
        base.push(ec[i]);
        i = i + 1;
        assert(base@ =~= ec@.subrange(start as int, i as int));
    }
    if base.len() == 0 {
        sanitize("edited.bin")
    } else {
        let b = string_from_chars(base.as_slice());
        sanitize(b.as_str())
    }
}

/// The error when extracting the entry to edit gave no file.
pub fn entry_not_extracted(entry: &str) -> (e: AppError)
    ensures
        is_archive_err(e, "条目未解压出可编辑文件: "@ + entry@),
{
    archive_err("条目未解压出可编辑文件: ", entry)
}

/// Why re-packing stops: the archive would be left without entries (after
/// committing an edit, deleting, or adding).
pub enum EmptyRepack {
    AfterEdit,
    AfterDelete,
    AfterAdd,
}

/// The error when re-packing finds nothing to put back.
pub fn nothing_to_repack(when: EmptyRepack) -> (e: AppError)
    ensures
        match when {
            EmptyRepack::AfterEdit => is_archive_err(e, "重打包时未找到任何条目"@),
            EmptyRepack::AfterDelete => is_archive_err(e, "删除后压缩包已无条目"@),
            EmptyRepack::AfterAdd => is_archive_err(e, "添加后压缩包已无条目"@),
        },
{
    match when {
        EmptyRepack::AfterEdit => archive_msg("重打包时未找到任何条目"),
        EmptyRepack::AfterDelete => archive_msg("删除后压缩包已无条目"),
        EmptyRepack::AfterAdd => archive_msg("添加后压缩包已无条目"),
    }
}

/// The error when the entry to rename is not in the archive.
pub fn rename_source_missing(old_name: &str) -> (e: AppError)
    ensures
        is_archive_err(e, "条目不存在，无法重命名: "@ + old_name@),
{
    archive_err("条目不存在，无法重命名: ", old_name)
}

/// The error when a file to add does not exist.
pub fn added_file_missing(path: &str) -> (e: AppError)
    ensures
        is_archive_err(e, "待添加文件不存在: "@ + path@),
{
    archive_err("待添加文件不存在: ", path)
}

/// The error when a file to add has no file name.
pub fn added_file_unnamed(path: &str) -> (e: AppError)
    ensures
        is_archive_err(e, "无法解析文件名: "@ + path@),
{
    archive_err("无法解析文件名: ", path)
}

} // verus!
