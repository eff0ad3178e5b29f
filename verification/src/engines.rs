//! What the archive engines decide entry by entry: which entries are
//! extracted and where, what is counted towards progress, how entries are
//! listed, tested and found for a preview, and what is added when
//! compressing. The engines themselves (zip, tar, 7z, RAR) read and write
//! files at the edge of the program and ask these functions at each entry.

use vstd::prelude::*;

use crate::archive::{dir_mode, file_mode, should_exclude, should_exclude_spec};
use crate::error::{archive_err, archive_msg, is_archive_err, is_unsupported_err, AppError, AppResult};
use crate::model::{as_str_spec, ArchiveFormat, EntryInfo, EntryTestStatus, TestResult};
use crate::paths::{sanitize, sanitize_spec, strip_apple_double, strip_apple_double_spec};
use crate::text::{strs, chars_of, ends_with, ends_with_str, eq_str, starts_with, starts_with_str};

verus! {

/// The chosen entries, as texts (`None`: all of them).
pub open spec fn chosen_view(entries: Option<&[String]>) -> Option<Seq<Seq<char>>> {
    match entries {
        Some(v) => Some(strs(v@)),
        None => None,
    }
}

/// Whether the entry `name` is among the chosen ones (all are, when none
/// were chosen).
pub open spec fn wanted_spec(chosen: Option<Seq<Seq<char>>>, name: Seq<char>) -> bool {
    match chosen {
        Some(v) => v.contains(name),
        None => true,
    }
}

fn same_text(a: &str, b: &str) -> (r: bool)
    ensures
        r == (a@ == b@),
{
    let ac = chars_of(a);
    eq_str(ac.as_slice(), b)
}

/// Whether the entry `name` is to be extracted.
pub fn is_wanted(name: &str, entries: Option<&[String]>) -> (b: bool)
    ensures
        b == wanted_spec(chosen_view(entries), name@),
{
    match entries {
        None => true,
        Some(v) => {
            let ghost cv = strs(v@);
            let mut i: usize = 0;
            while i < v.len()
                invariant
                    i <= v@.len(),
                    cv == strs(v@),
                    cv.len() == v@.len(),
                    chosen_view(entries) == Some(cv),
                    forall|j: int| 0 <= j < i ==> cv[j] != name@,
                decreases v.len() - i,
            {
                if same_text(v[i].as_str(), name) {
                    assert(cv[i as int] == name@);
                    return true;
                }
                i = i + 1;
            }
            proof {
                if cv.contains(name@) {
                    let k = choose|k: int| 0 <= k < cv.len() && cv[k] == name@;
                    assert(cv[k] == name@);
                }
            }
            false
        },
    }
}

/// The bytes to be extracted, by a listing: the sizes of the chosen entries
/// that are not directories.
pub open spec fn listed_total(listing: Seq<EntryInfo>, chosen: Option<Seq<Seq<char>>>) -> int
    decreases listing.len(),
{
    if listing.len() == 0 {
        0
    } else {
        let e = listing.last();
        listed_total(listing.drop_last(), chosen) + if !e.is_dir && wanted_spec(chosen, e.name@) {
            e.size as int
        } else {
            0
        }
    }
}

proof fn lemma_listed_total_nonneg(listing: Seq<EntryInfo>, chosen: Option<Seq<Seq<char>>>)
    ensures
        listed_total(listing, chosen) >= 0,
    decreases listing.len(),
{
    if listing.len() > 0 {
        lemma_listed_total_nonneg(listing.drop_last(), chosen);
    }
}

/// The progress total of an extraction (RAR, tar and 7z engines): the bytes
/// of the chosen files, from the archive's listing; `None` when the sum
/// does not fit in 64 bits.
pub fn extract_total(listing: &Vec<EntryInfo>, entries: Option<&[String]>) -> (r: Option<u64>)
    ensures
        r == (if listed_total(listing@, chosen_view(entries)) <= u64::MAX {
            Some(listed_total(listing@, chosen_view(entries)) as u64)
        } else {
            None::<u64>
        }),
{
    let ghost ch = chosen_view(entries);
    let mut sum: u64 = 0;
    let mut i: usize = 0;
    while i < listing.len()
        invariant
            i <= listing@.len(),
            ch == chosen_view(entries),
            sum == listed_total(listing@.take(i as int), ch),
        decreases listing.len() - i,
    {
        let e = &listing[i];
        assert(listing@.take(i + 1).drop_last() =~= listing@.take(i as int));
        if !e.is_dir && is_wanted(e.name.as_str(), entries) {
            if sum > u64::MAX - e.size {
                proof {
                    let rest = listing@.skip(i + 1);
                    lemma_listed_total_suffix(listing@, i + 1, ch);
                }
                return None;
            }
            sum = sum + e.size;
        }
        i = i + 1;
    }
    assert(listing@.take(i as int) =~= listing@);
    Some(sum)
}

proof fn lemma_listed_total_suffix(listing: Seq<EntryInfo>, k: int, chosen: Option<Seq<Seq<char>>>)
    requires
        0 <= k <= listing.len(),
    ensures
        listed_total(listing, chosen) >= listed_total(listing.take(k), chosen),
    decreases listing.len() - k,
{
    if k < listing.len() {
        lemma_listed_total_suffix(listing, k + 1, chosen);
        assert(listing.take(k + 1).drop_last() =~= listing.take(k));
    } else {
        assert(listing.take(k) =~= listing);
    }
}

/// The error when the sizes to extract add up past 64 bits, so that no
/// progress total can be given.
pub fn total_overflow() -> (e: AppError)
    ensures
        is_archive_err(e, "解压总量超出 64 位范围"@),
{
    archive_msg("解压总量超出 64 位范围")
}

/// What to do with one entry while extracting.
pub enum ExtractStep {
    /// Leave the entry out.
    Skip,
    /// Create this directory (relative to the destination).
    MakeDir(String),
    /// Write the entry's contents to this file (relative to the destination).
    Write(String),
}

/// `s` is the step `t` (paths compared as texts).
pub open spec fn step_is(s: ExtractStep, t: Option<(bool, Seq<char>)>) -> bool {
    match t {
        None => s is Skip,
        Some((true, p)) => s matches ExtractStep::MakeDir(q) && q@ == p,
        Some((false, p)) => s matches ExtractStep::Write(q) && q@ == p,
    }
}

/// The RAR engine's step: chosen entries whose names hold no NUL (UnRAR
/// cannot take such a name) are extracted under their sanitised names.
pub open spec fn rar_step_spec(name: Seq<char>, is_dir: bool, chosen: Option<Seq<Seq<char>>>) -> Option<
    (bool, Seq<char>),
> {
    if !wanted_spec(chosen, name) || name.contains('\0') {
        None
    } else {
        Some((is_dir, sanitize_spec(name)))
    }
}

/// The tar engine's step: chosen entries are extracted under their
/// sanitised names.
pub open spec fn tar_step_spec(name: Seq<char>, is_dir: bool, chosen: Option<Seq<Seq<char>>>) -> Option<
    (bool, Seq<char>),
> {
    if !wanted_spec(chosen, name) {
        None
    } else {
        Some((is_dir, sanitize_spec(name)))
    }
}

/// The 7z engine's step: every directory is created, chosen files are
/// written, all under their sanitised names.
pub open spec fn sevenz_step_spec(name: Seq<char>, is_dir: bool, chosen: Option<Seq<Seq<char>>>) -> Option<
    (bool, Seq<char>),
> {
    if is_dir {
        Some((true, sanitize_spec(name)))
    } else if !wanted_spec(chosen, name) {
        None
    } else {
        Some((false, sanitize_spec(name)))
    }
}

fn has_nul(s: &str) -> (b: bool)
    ensures
        b == s@.contains('\0'),
{
    let sc = chars_of(s);
    let mut i: usize = 0;
    while i < sc.len()
        invariant
            i <= sc@.len(),
            sc@ == s@,
            forall|j: int| 0 <= j < i ==> sc@[j] != '\0',
        decreases sc.len() - i,
    {
        if sc[i] == '\0' {
            assert(s@[i as int] == '\0');
            return true;
        }
        i = i + 1;
    }
    false
}

fn place(name: &str, is_dir: bool) -> (s: ExtractStep)
    ensures
        step_is(s, Some((is_dir, sanitize_spec(name@)))),
{
    let p = sanitize(name);
    if is_dir {
        ExtractStep::MakeDir(p)
    } else {
        ExtractStep::Write(p)
    }
}

/// What the RAR engine does with the entry `name` (already normalised).
pub fn rar_extract_step(name: &str, is_dir: bool, entries: Option<&[String]>) -> (s: ExtractStep)
    ensures
        step_is(s, rar_step_spec(name@, is_dir, chosen_view(entries))),
{
    if !is_wanted(name, entries) || has_nul(name) {
        return ExtractStep::Skip;
    }
    place(name, is_dir)
}

/// What the tar engine does with the entry `name`.
pub fn tar_extract_step(name: &str, is_dir: bool, entries: Option<&[String]>) -> (s: ExtractStep)
    ensures
        step_is(s, tar_step_spec(name@, is_dir, chosen_view(entries))),
{
    if !is_wanted(name, entries) {
        return ExtractStep::Skip;
    }
    place(name, is_dir)
}

/// What the 7z engine does with the entry `name`.
pub fn sevenz_extract_step(name: &str, is_dir: bool, entries: Option<&[String]>) -> (s: ExtractStep)
    ensures
        step_is(s, sevenz_step_spec(name@, is_dir, chosen_view(entries))),
{
    if is_dir {
        return place(name, true);
    }
    if !is_wanted(name, entries) {
        return ExtractStep::Skip;
    }
    place(name, false)
}

/// The metadata of one zip entry that extraction reads.
pub struct ZipMeta {
    pub name: String,
    pub is_dir: bool,
    pub size: u64,
    /// The Unix mode stored with the entry, if any.
    pub unix_mode: Option<u32>,
}

/// A zip entry names a directory: flagged so, or named with a final `/`.
pub open spec fn zip_dir_spec(m: ZipMeta) -> bool {
    m.is_dir || ends_with(m.name@, "/"@)
}

/// A zip entry counts towards the progress total: not an AppleDouble
/// metadata entry, not a directory, and chosen.
pub open spec fn zip_counted(m: ZipMeta, chosen: Option<Seq<Seq<char>>>) -> bool {
    &&& strip_apple_double_spec(m.name@) is None
    &&& !zip_dir_spec(m)
    &&& wanted_spec(chosen, m.name@)
}

/// The progress total of a zip extraction.
pub open spec fn zip_total_spec(metas: Seq<ZipMeta>, chosen: Option<Seq<Seq<char>>>) -> int
    decreases metas.len(),
{
    if metas.len() == 0 {
        0
    } else {
        zip_total_spec(metas.drop_last(), chosen) + if zip_counted(metas.last(), chosen) {
            metas.last().size as int
        } else {
            0
        }
    }
}

proof fn lemma_zip_total_prefix(metas: Seq<ZipMeta>, k: int, chosen: Option<Seq<Seq<char>>>)
    requires
        0 <= k <= metas.len(),
    ensures
        zip_total_spec(metas, chosen) >= zip_total_spec(metas.take(k), chosen),
    decreases metas.len() - k,
{
    if k < metas.len() {
        lemma_zip_total_prefix(metas, k + 1, chosen);
        assert(metas.take(k + 1).drop_last() =~= metas.take(k));
    } else {
        assert(metas.take(k) =~= metas);
    }
}

fn zip_is_dir(m: &ZipMeta) -> (b: bool)
    ensures
        b == zip_dir_spec(*m),
{
    let nc = chars_of(m.name.as_str());
    m.is_dir || ends_with_str(nc.as_slice(), "/")
}

/// The progress total of a zip extraction (first pass over the entries);
/// `None` when it does not fit in 64 bits.
pub fn zip_extract_total(metas: &Vec<ZipMeta>, entries: Option<&[String]>) -> (r: Option<u64>)
    ensures
        r == (if zip_total_spec(metas@, chosen_view(entries)) <= u64::MAX {
            Some(zip_total_spec(metas@, chosen_view(entries)) as u64)
        } else {
            None::<u64>
        }),
{
    let ghost ch = chosen_view(entries);
    let mut sum: u64 = 0;
    let mut i: usize = 0;
    while i < metas.len()
        invariant
            i <= metas@.len(),
            ch == chosen_view(entries),
            sum == zip_total_spec(metas@.take(i as int), ch),
        decreases metas.len() - i,
    {
        let m = &metas[i];
        assert(metas@.take(i + 1).drop_last() =~= metas@.take(i as int));
        let counted = strip_apple_double(m.name.as_str()).is_none() && !zip_is_dir(m) && is_wanted(
            m.name.as_str(),
            entries,
        );
        if counted {
            if sum > u64::MAX - m.size {
                proof {
                    lemma_zip_total_prefix(metas@, i + 1, ch);
                }
                return None;
            }
            sum = sum + m.size;
        }
        i = i + 1;
    }
    assert(metas@.take(i as int) =~= metas@);
    Some(sum)
}

/// What the zip engine does with one entry while extracting.
pub enum ZipExtractStep {
    Skip,
    MakeDir(String),
    /// A symbolic link, whose target is the entry's contents.
    Symlink(String),
    /// A file, given these permission bits.
    File(String, u32),
}

/// The zip engine's step: `__MACOSX` metadata and entries not chosen are
/// left out; directories are created; an entry whose mode (`0o644` when
/// none is stored) has the link type becomes a symbolic link; any other
/// is written with the permission bits of its mode. Names are sanitised.
pub open spec fn zip_step_is(s: ZipExtractStep, m: ZipMeta, chosen: Option<Seq<Seq<char>>>) -> bool {
    let mode: u32 = match m.unix_mode {
        Some(x) => x,
        None => 0o644u32,
    };
    let p = sanitize_spec(m.name@);
    if starts_with(m.name@, "__MACOSX/"@) || !wanted_spec(chosen, m.name@) {
        s is Skip
    } else if zip_dir_spec(m) {
        s matches ZipExtractStep::MakeDir(q) && q@ == p
    } else if mode & 0o170000 == 0o120000 {
        s matches ZipExtractStep::Symlink(q) && q@ == p
    } else {
        s matches ZipExtractStep::File(q, perm) && q@ == p && perm == mode & 0o7777
    }
}

/// What the zip engine does with the entry `m` (second pass).
pub fn zip_extract_step(m: &ZipMeta, entries: Option<&[String]>) -> (s: ZipExtractStep)
    ensures
        zip_step_is(s, *m, chosen_view(entries)),
{
    let nc = chars_of(m.name.as_str());
    if starts_with_str(nc.as_slice(), "__MACOSX/") || !is_wanted(m.name.as_str(), entries) {
        return ZipExtractStep::Skip;
    }
    let p = sanitize(m.name.as_str());
    if zip_is_dir(m) {
        return ZipExtractStep::MakeDir(p);
    }
    let mode: u32 = match m.unix_mode {
        Some(x) => x,
        None => 0o644,
    };
    if crate::archive::is_symlink_mode(mode) {
        ZipExtractStep::Symlink(p)
    } else {
        ZipExtractStep::File(p, crate::archive::permission_bits(mode))
    }
}

/// A zip entry is written out (as a file or a symbolic link): it is not
/// `__MACOSX` metadata, it is chosen and it is not a directory.
pub open spec fn zip_written(m: ZipMeta, chosen: Option<Seq<Seq<char>>>) -> bool {
    !starts_with(m.name@, "__MACOSX/"@) && wanted_spec(chosen, m.name@) && !zip_dir_spec(m)
}

/// How many zip entries are written out.
pub open spec fn zip_written_count(metas: Seq<ZipMeta>, chosen: Option<Seq<Seq<char>>>) -> nat
    decreases metas.len(),
{
    if metas.len() == 0 {
        0
    } else {
        zip_written_count(metas.drop_last(), chosen) + if zip_written(metas.last(), chosen) {
            1nat
        } else {
            0nat
        }
    }
}

/// The bytes of the zip entries written out.
pub open spec fn zip_written_bytes(metas: Seq<ZipMeta>, chosen: Option<Seq<Seq<char>>>) -> int
    decreases metas.len(),
{
    if metas.len() == 0 {
        0
    } else {
        zip_written_bytes(metas.drop_last(), chosen) + if zip_written(metas.last(), chosen) {
            metas.last().size as int
        } else {
            0
        }
    }
}

proof fn lemma_zip_written_within_total(metas: Seq<ZipMeta>, chosen: Option<Seq<Seq<char>>>)
    ensures
        0 <= zip_written_bytes(metas, chosen) <= zip_total_spec(metas, chosen),
        zip_written_count(metas, chosen) <= metas.len(),
    decreases metas.len(),
{
    if metas.len() > 0 {
        lemma_zip_written_within_total(metas.drop_last(), chosen);
        let m = metas.last();
        if zip_written(m, chosen) {
            assert(strip_apple_double_spec(m.name@) is None);
        }
    }
}

/// The whole course of a zip extraction, decided from the entries'
/// metadata (first pass): the step for each entry, the progress to report
/// after it (bytes written so far and the total, when the entry was written
/// out), how many entries are written out, and the total.
pub struct ZipPlan {
    pub steps: Vec<ZipExtractStep>,
    pub reports: Vec<Option<(u64, u64)>>,
    pub extracted: usize,
    pub total: u64,
}

/// The extraction of the zip entries `metas`, in the archive's order;
/// `None` when the progress total does not fit in 64 bits.
pub fn zip_extract_plan(metas: &Vec<ZipMeta>, entries: Option<&[String]>) -> (r: Option<ZipPlan>)
    ensures
        r is None <==> zip_total_spec(metas@, chosen_view(entries)) > u64::MAX,
        r matches Some(p) ==> {
            let ch = chosen_view(entries);
            &&& p.total == zip_total_spec(metas@, ch)
            &&& p.steps@.len() == metas@.len()
            &&& p.reports@.len() == metas@.len()
            &&& p.extracted == zip_written_count(metas@, ch)
            &&& forall|i: int| 0 <= i < metas@.len() ==> zip_step_is(#[trigger] p.steps@[i], metas@[i], ch)
            &&& forall|i: int|
                0 <= i < metas@.len() ==> #[trigger] p.reports@[i] == if zip_written(metas@[i], ch) {
                    Some((zip_written_bytes(metas@.take(i + 1), ch) as u64, p.total))
                } else {
                    None::<(u64, u64)>
                }
            &&& forall|i: int|
                0 <= i < metas@.len() ==> (#[trigger] p.reports@[i] matches Some((c, t)) ==> c <= t)
        },
{
    let ghost ch = chosen_view(entries);
    proof {
        lemma_zip_written_within_total(metas@, ch);
    }
    let total = match zip_extract_total(metas, entries) {
        Some(t) => t,
        None => {
            return None;
        },
    };
    let mut steps: Vec<ZipExtractStep> = Vec::new();
    let mut reports: Vec<Option<(u64, u64)>> = Vec::new();
    let mut count: usize = 0;
    let mut current: u64 = 0;
    let mut i: usize = 0;
    while i < metas.len()
        invariant
            i <= metas@.len(),
            ch == chosen_view(entries),
            total == zip_total_spec(metas@, ch),
            steps@.len() == i,
            reports@.len() == i,
            count == zip_written_count(metas@.take(i as int), ch),
            current == zip_written_bytes(metas@.take(i as int), ch),
            forall|j: int| 0 <= j < i ==> zip_step_is(#[trigger] steps@[j], metas@[j], ch),
            forall|j: int|
                0 <= j < i ==> #[trigger] reports@[j] == if zip_written(metas@[j], ch) {
                    Some((zip_written_bytes(metas@.take(j + 1), ch) as u64, total))
                } else {
                    None::<(u64, u64)>
                },
            forall|j: int| 0 <= j < i ==> (#[trigger] reports@[j] matches Some((c, t)) ==> c <= t),
        decreases metas.len() - i,
    {
        let m = &metas[i];
        let ghost pre = metas@.take(i as int);
        let ghost next = metas@.take(i + 1);
        assert(next.drop_last() =~= pre);
        assert(next.last() == metas@[i as int]);
        proof {
            lemma_zip_written_within_total(next, ch);
            lemma_zip_total_prefix(metas@, i + 1, ch);
        }
        let step = zip_extract_step(m, entries);
        let report = match &step {
            ZipExtractStep::File(_, _) | ZipExtractStep::Symlink(_) => {
                current = current + m.size;
                count = count + 1;
                Some((current, total))
            },
            _ => None,
        };
        steps.push(step);
        reports.push(report);
        i = i + 1;
    }
    assert(metas@.take(i as int) =~= metas@);
    Some(ZipPlan { steps, reports, extracted: count, total })
}

/// One zip entry as the listing reads it; `method` is the name of its
/// compression method.
pub struct ZipListItem {
    pub name: String,
    pub size: u64,
    pub compressed_size: u64,
    pub is_dir: bool,
    pub method: String,
}

/// `e` shows the zip entry `z`.
pub open spec fn zip_entry_is(e: EntryInfo, z: ZipListItem) -> bool {
    &&& e.name@ == z.name@
    &&& e.size == z.size
    &&& e.compressed_size == Some(z.compressed_size)
    &&& e.is_dir == z.is_dir
    &&& e.modified is None
    &&& e.method matches Some(m) && m@ == z.method@
}

/// The zip entries shown: all but the `__MACOSX` metadata, in order.
pub open spec fn zip_shown(items: Seq<ZipListItem>) -> Seq<ZipListItem>
    decreases items.len(),
{
    if items.len() == 0 {
        Seq::<ZipListItem>::empty()
    } else if starts_with(items.last().name@, "__MACOSX/"@) {
        zip_shown(items.drop_last())
    } else {
        zip_shown(items.drop_last()).push(items.last())
    }
}

/// Lists a zip archive from its entries, leaving out `__MACOSX` metadata.
pub fn list_zip(items: &Vec<ZipListItem>) -> (r: Vec<EntryInfo>)
    ensures
        r@.len() == zip_shown(items@).len(),
        forall|i: int| 0 <= i < r@.len() ==> zip_entry_is(#[trigger] r@[i], zip_shown(items@)[i]),
{
    let mut out: Vec<EntryInfo> = Vec::new();
    let mut i: usize = 0;
    while i < items.len()
        invariant
            i <= items@.len(),
            out@.len() == zip_shown(items@.take(i as int)).len(),
            forall|j: int|
                0 <= j < out@.len() ==> zip_entry_is(#[trigger] out@[j], zip_shown(items@.take(i as int))[j]),
        decreases items.len() - i,
    {
        let it = &items[i];
        assert(items@.take(i + 1).drop_last() =~= items@.take(i as int));
        let nc = chars_of(it.name.as_str());
        if !starts_with_str(nc.as_slice(), "__MACOSX/") {
            out.push(
                EntryInfo {
                    name: it.name.clone(),
                    size: it.size,
                    compressed_size: Some(it.compressed_size),
                    is_dir: it.is_dir,
                    modified: None,
                    method: Some(it.method.clone()),
                },
            );
        }
        i = i + 1;
    }
    assert(items@.take(i as int) =~= items@);
    out
}

/// Records the check of one entry: passing without `failure`, else failing
/// with its text, which also fails the whole report.
pub fn record_test(t: &mut TestResult, name: String, failure: Option<String>)
    ensures
        final(t).entries@.len() == old(t).entries@.len() + 1,
        final(t).entries@.drop_last() == old(t).entries@,
        final(t).entries@.last().name@ == name@,
        final(t).ok == (old(t).ok && failure is None),
        match failure {
            None => final(t).entries@.last().ok && final(t).entries@.last().error is None,
            Some(f) => !final(t).entries@.last().ok && (final(t).entries@.last().error matches Some(
                x,
            ) && x@ == f@),
        },
{
    match failure {
        None => {
            t.entries.push(EntryTestStatus { name, ok: true, error: None });
        },
        Some(f) => {
            t.ok = false;
            t.entries.push(EntryTestStatus { name, ok: false, error: Some(f) });
        },
    }
    assert(t.entries@.drop_last() =~= old(t).entries@);
}

/// Whether the zip check reads an entry: not one named as a directory.
pub fn zip_tests_entry(name: &str) -> (b: bool)
    ensures
        b == !ends_with(name@, "/"@),
{
    let nc = chars_of(name);
    !ends_with_str(nc.as_slice(), "/")
}

/// The name recorded for a tar entry that could not even be read.
pub fn unreadable_entry_name() -> (r: String)
    ensures
        r@ == "<无法读取条目>"@,
{
    "<无法读取条目>".to_owned()
}

/// What to do with an entry while looking for the one to preview.
pub enum PreviewStep {
    /// Another entry: go on.
    Skip,
    /// The entry sought, which cannot be previewed.
    Fail(AppError),
    /// The entry sought: read it and preview it.
    Read,
}

/// The zip engine's preview step: directories cannot be previewed.
pub fn zip_preview_step(name: &str, entry: &str, is_dir: bool) -> (s: PreviewStep)
    ensures
        name@ != entry@ ==> s is Skip,
        name@ == entry@ && is_dir ==> (s matches PreviewStep::Fail(e) && is_archive_err(
            e,
            "该条目是目录，无法预览"@,
        )),
        name@ == entry@ && !is_dir ==> s is Read,
{
    if !same_text(name, entry) {
        return PreviewStep::Skip;
    }
    if is_dir {
        return PreviewStep::Fail(archive_msg("该条目是目录，无法预览"));
    }
    PreviewStep::Read
}

/// The 7z engine's preview step: directories cannot be previewed; the
/// refusal passes through the 7z crate's error, whose text is its debug
/// form.
pub fn sevenz_preview_step(name: &str, entry: &str, is_dir: bool) -> (s: PreviewStep)
    ensures
        name@ != entry@ ==> s is Skip,
        name@ == entry@ && is_dir ==> (s matches PreviewStep::Fail(e) && is_archive_err(
            e,
            "Other(\"该条目是目录，无法预览\")"@,
        )),
        name@ == entry@ && !is_dir ==> s is Read,
{
    if !same_text(name, entry) {
        return PreviewStep::Skip;
    }
    if is_dir {
        return PreviewStep::Fail(archive_msg("Other(\"该条目是目录，无法预览\")"));
    }
    PreviewStep::Read
}

/// The tar engine's preview step: the entry sought is read, whatever it is.
pub fn tar_preview_step(name: &str, entry: &str) -> (s: PreviewStep)
    ensures
        name@ != entry@ ==> s is Skip,
        name@ == entry@ ==> s is Read,
{
    if same_text(name, entry) {
        PreviewStep::Read
    } else {
        PreviewStep::Skip
    }
}

/// A tar entry as listed: sizes and times the header cannot give count as
/// 0; the method is the archive's format name.
pub fn tar_entry(name: String, size: Option<u64>, is_dir: bool, mtime: Option<u64>, fmt: ArchiveFormat) -> (e:
    EntryInfo)
    ensures
        e.name@ == name@,
        e.size == match size {
            Some(n) => n,
            None => 0u64,
        },
        e.compressed_size is None,
        e.is_dir == is_dir,
        e.modified == Some(
            match mtime {
                Some(t) => t,
                None => 0u64,
            },
        ),
        e.method matches Some(m) && m@ == as_str_spec(fmt),
{
    EntryInfo {
        name,
        size: match size {
            Some(n) => n,
            None => 0,
        },
        compressed_size: None,
        is_dir,
        modified: Some(
            match mtime {
                Some(t) => t,
                None => 0,
            },
        ),
        method: Some(fmt.as_str().to_owned()),
    }
}

/// A 7z entry as listed: no packed size or time; the method is `7z`.
pub fn sevenz_entry(name: String, size: u64, is_dir: bool) -> (e: EntryInfo)
    ensures
        e.name@ == name@,
        e.size == size,
        e.compressed_size is None,
        e.is_dir == is_dir,
        e.modified is None,
        e.method matches Some(m) && m@ == "7z"@,
{
    EntryInfo { name, size, compressed_size: None, is_dir, modified: None, method: Some("7z".to_owned()) }
}

/// The zip writer's settings for every entry: deflate at the clamped
/// level, and AES-256 with the password when one with content is given.
pub struct ZipOptions {
    pub level: i64,
    pub aes_password: Option<String>,
}

/// The zip writer's settings for a compression at `level` with `password`.
pub fn base_opts(level: u8, password: Option<&str>) -> (o: ZipOptions)
    ensures
        o.level == if level > 9 { 9 } else { level as int },
        match password {
            Some(p) => if p@.len() > 0 {
                o.aes_password matches Some(q) && q@ == p@
            } else {
                o.aes_password is None
            },
            None => o.aes_password is None,
        },
{
    let aes = match password {
        Some(p) => if p.is_empty() {
            None
        } else {
            Some(p.to_owned())
        },
        None => None,
    };
    ZipOptions { level: crate::archive::clamp_level(level), aes_password: aes }
}

/// What an input on disk is.
#[derive(Clone, Copy, Debug, PartialEq, Eq, Structural)]
pub enum FsKind {
    Symlink,
    Dir,
    File,
}

/// What the zip writer adds for one input.
pub enum ZipAdd {
    /// The input is left out (with everything under it).
    Skip,
    /// A link entry holding its target, with these permissions.
    Symlink(String, u32),
    /// A directory entry (its name ends with `/`), with these permissions.
    Dir(String, u32),
    /// A file entry, with these permissions.
    File(String, u32),
}

/// An input is added: its relative name is not empty and not excluded.
pub open spec fn added_spec(rel: Seq<char>, exclude: Seq<Seq<char>>, hidden: bool) -> bool {
    rel.len() > 0 && !should_exclude_spec(rel, exclude, hidden)
}

/// Whether the input `rel` (relative to its base) is added, and so counted
/// towards the progress total; for a directory, whether it is entered.
pub fn is_added(rel: &str, exclude: &[String], compress_hidden: bool) -> (b: bool)
    ensures
        b == added_spec(rel@, strs(exclude@), compress_hidden),
{
    let rc = chars_of(rel);
    rc.len() > 0 && !should_exclude(rel, exclude, compress_hidden)
}

/// What the zip writer adds for the input `rel` of kind `kind` and Unix mode
/// `mode`: a link with permissions `0o777`, a directory named `rel/` with
/// its directory mode, or a file with its file mode.
pub fn zip_add_plan(rel: &str, kind: FsKind, mode: u32, exclude: &[String], compress_hidden: bool) -> (a:
    ZipAdd)
    ensures
        !added_spec(rel@, strs(exclude@), compress_hidden) ==> a is Skip,
        added_spec(rel@, strs(exclude@), compress_hidden) ==> match kind {
            FsKind::Symlink => a matches ZipAdd::Symlink(n, p) && n@ == rel@ && p == 0o777,
            FsKind::Dir => a matches ZipAdd::Dir(n, p) && n@ == rel@.push('/') && p == (mode
                & 0o7777) | 0o040000,
            FsKind::File => a matches ZipAdd::File(n, p) && n@ == rel@ && p == (mode & 0o7777)
                | 0o100000,
        },
{
    if !is_added(rel, exclude, compress_hidden) {
        return ZipAdd::Skip;
    }
    match kind {
        FsKind::Symlink => ZipAdd::Symlink(rel.to_owned(), 0o777),
        FsKind::Dir => {
            let mut v = chars_of(rel);
            v.push('/');
            ZipAdd::Dir(crate::text::string_from_chars(v.as_slice()), dir_mode(mode))
        },
        FsKind::File => ZipAdd::File(rel.to_owned(), file_mode(mode)),
    }
}

/// The error for compressing nothing.
pub fn no_inputs() -> (e: AppError)
    ensures
        is_archive_err(e, "未提供任何待压缩路径"@),
{
    archive_msg("未提供任何待压缩路径")
}

/// The error for an input that does not exist.
pub fn missing_input(path: &str) -> (e: AppError)
    ensures
        is_archive_err(e, "路径不存在: "@ + path@),
{
    archive_err("路径不存在: ", path)
}

/// The compressor around a tarball, with its level.
#[derive(Clone, Copy, Debug, PartialEq, Eq, Structural)]
pub enum TarCodec {
    /// No compressor: a plain tarball.
    Plain,
    Gz(u32),
    Bz(u32),
    Xz(u32),
    Zstd(i32),
}

/// The compressor of a tar format: none for a plain tarball, gzip and
/// bzip2 at the level clamped to 0..=9, xz always at preset 6, zstd at the
/// level clamped to 0..=22.
pub open spec fn tar_codec_spec(fmt: ArchiveFormat, level: u8) -> Option<TarCodec> {
    match fmt {
        ArchiveFormat::Tar => Some(TarCodec::Plain),
        ArchiveFormat::TarGz => Some(TarCodec::Gz(if level > 9 { 9 } else { level as u32 })),
        ArchiveFormat::TarBz => Some(TarCodec::Bz(if level > 9 { 9 } else { level as u32 })),
        ArchiveFormat::TarXz => Some(TarCodec::Xz(6)),
        ArchiveFormat::TarZstd => Some(TarCodec::Zstd(if level > 22 { 22 } else { level as i32 })),
        _ => None,
    }
}

/// The compressor to write a tarball of format `fmt` with; other formats
/// are refused.
pub fn tar_codec(fmt: ArchiveFormat, level: u8) -> (r: AppResult<TarCodec>)
    ensures
        match tar_codec_spec(fmt, level) {
            Some(c) => r == Ok::<TarCodec, AppError>(c),
            None => r matches Err(e) && is_unsupported_err(e, "非 tar 格式"@),
        },
{
    match fmt {
        ArchiveFormat::Tar => Ok(TarCodec::Plain),
        ArchiveFormat::TarGz => Ok(TarCodec::Gz(if level > 9 { 9 } else { level as u32 })),
        ArchiveFormat::TarBz => Ok(TarCodec::Bz(if level > 9 { 9 } else { level as u32 })),
        ArchiveFormat::TarXz => Ok(TarCodec::Xz(6)),
        ArchiveFormat::TarZstd => Ok(TarCodec::Zstd(if level > 22 { 22 } else { level as i32 })),
        _ => Err(crate::error::unsupported_msg("非 tar 格式")),
    }
}

/// The variant name of a format, as its debug form shows it.
pub open spec fn format_debug_spec(fmt: ArchiveFormat) -> Seq<char> {
    match fmt {
        ArchiveFormat::Zip => "Zip"@,
        ArchiveFormat::SevenZip => "SevenZip"@,
        ArchiveFormat::Tar => "Tar"@,
        ArchiveFormat::TarGz => "TarGz"@,
        ArchiveFormat::TarBz => "TarBz"@,
        ArchiveFormat::TarXz => "TarXz"@,
        ArchiveFormat::TarZstd => "TarZstd"@,
        ArchiveFormat::Gz => "Gz"@,
        ArchiveFormat::Bz2 => "Bz2"@,
        ArchiveFormat::Xz => "Xz"@,
        ArchiveFormat::Zstd => "Zstd"@,
        ArchiveFormat::Rar => "Rar"@,
    }
}

/// Whether a tarball of format `fmt` can be read, and the refusal naming
/// the format otherwise.
pub fn tar_readable(fmt: ArchiveFormat) -> (r: AppResult<()>)
    ensures
        (r is Ok) == (fmt == ArchiveFormat::Tar || fmt == ArchiveFormat::TarGz || fmt == ArchiveFormat::TarBz || fmt
            == ArchiveFormat::TarXz || fmt == ArchiveFormat::TarZstd),
        r matches Err(e) ==> is_unsupported_err(e, "tar 不支持的格式: "@ + format_debug_spec(fmt)),
{
    let name = match fmt {
        ArchiveFormat::Tar | ArchiveFormat::TarGz | ArchiveFormat::TarBz | ArchiveFormat::TarXz
        | ArchiveFormat::TarZstd => {
            return Ok(());
        },
        ArchiveFormat::Zip => "Zip",
        ArchiveFormat::SevenZip => "SevenZip",
        ArchiveFormat::Gz => "Gz",
        ArchiveFormat::Bz2 => "Bz2",
        ArchiveFormat::Xz => "Xz",
        ArchiveFormat::Zstd => "Zstd",
        ArchiveFormat::Rar => "Rar",
    };
    Err(crate::error::unsupported_err("tar 不支持的格式: ", name))
}

/// The 7z writer's encryption: AES-256 with the password, its key derived
/// with 2^19 rounds as 7-Zip does, when a password with content is given.
pub fn sevenz_encryption(password: Option<&str>) -> (r: Option<(String, u32)>)
    ensures
        match password {
            Some(p) => if p@.len() > 0 {
                r matches Some((q, n)) && q@ == p@ && n == 19
            } else {
                r is None
            },
            None => r is None,
        },
{
    match password {
        Some(p) => if p.is_empty() {
            None
        } else {
            Some((p.to_owned(), 19))
        },
        None => None,
    }
}

/// The engines that read an archive as a stream and decide each entry by
/// its name (the zip engine has its own steps).
#[derive(Clone, Copy, Debug, PartialEq, Eq, Structural)]
pub enum StepRule {
    Rar,
    Tar,
    SevenZip,
}

/// The step an engine takes with an entry.
pub open spec fn rule_step(rule: StepRule, name: Seq<char>, is_dir: bool, chosen: Option<Seq<Seq<char>>>) -> Option<
    (bool, Seq<char>),
> {
    match rule {
        StepRule::Rar => rar_step_spec(name, is_dir, chosen),
        StepRule::Tar => tar_step_spec(name, is_dir, chosen),
        StepRule::SevenZip => sevenz_step_spec(name, is_dir, chosen),
    }
}

/// The entry's contents are written to a file.
pub open spec fn written_by(rule: StepRule, e: EntryInfo, chosen: Option<Seq<Seq<char>>>) -> bool {
    rule_step(rule, e.name@, e.is_dir, chosen) matches Some((false, _))
}

/// How many entries of a listing are written to files.
pub open spec fn written_count(listing: Seq<EntryInfo>, chosen: Option<Seq<Seq<char>>>, rule: StepRule) -> nat
    decreases listing.len(),
{
    if listing.len() == 0 {
        0
    } else {
        written_count(listing.drop_last(), chosen, rule) + if written_by(rule, listing.last(), chosen) {
            1nat
        } else {
            0nat
        }
    }
}

/// The bytes of the entries of a listing that are written to files.
pub open spec fn written_bytes(listing: Seq<EntryInfo>, chosen: Option<Seq<Seq<char>>>, rule: StepRule) -> int
    decreases listing.len(),
{
    if listing.len() == 0 {
        0
    } else {
        written_bytes(listing.drop_last(), chosen, rule) + if written_by(rule, listing.last(), chosen) {
            listing.last().size as int
        } else {
            0
        }
    }
}

/// What is written never exceeds what the progress total counts.
proof fn lemma_written_within_total(listing: Seq<EntryInfo>, chosen: Option<Seq<Seq<char>>>, rule: StepRule)
    ensures
        0 <= written_bytes(listing, chosen, rule) <= listed_total(listing, chosen),
        written_count(listing, chosen, rule) <= listing.len(),
    decreases listing.len(),
{
    if listing.len() > 0 {
        lemma_written_within_total(listing.drop_last(), chosen, rule);
    }
}

/// The whole course of an extraction, decided from the archive's listing
/// before its entries are read: the step for each entry, the progress to
/// report after it (bytes written so far and the total, when the entry was
/// written to a file), how many files are written, and the total.
pub struct ExtractPlan {
    pub steps: Vec<ExtractStep>,
    pub reports: Vec<Option<(u64, u64)>>,
    pub extracted: usize,
    pub total: u64,
}

/// The extraction of the entries in `listing` (in the order the engine
/// meets them) by the engine `rule`; `None` when the progress total does
/// not fit in 64 bits.
pub fn extract_plan(listing: &Vec<EntryInfo>, entries: Option<&[String]>, rule: StepRule) -> (r: Option<
    ExtractPlan,
>)
    ensures
        r is None <==> listed_total(listing@, chosen_view(entries)) > u64::MAX,
        r matches Some(p) ==> {
            let ch = chosen_view(entries);
            &&& p.total == listed_total(listing@, ch)
            &&& p.steps@.len() == listing@.len()
            &&& p.reports@.len() == listing@.len()
            &&& p.extracted == written_count(listing@, ch, rule)
            &&& forall|i: int|
                0 <= i < listing@.len() ==> step_is(
                    #[trigger] p.steps@[i],
                    rule_step(rule, listing@[i].name@, listing@[i].is_dir, ch),
                )
            &&& forall|i: int|
                0 <= i < listing@.len() ==> #[trigger] p.reports@[i] == if written_by(rule, listing@[i], ch) {
                    Some((written_bytes(listing@.take(i + 1), ch, rule) as u64, p.total))
                } else {
                    None::<(u64, u64)>
                }
            &&& forall|i: int|
                0 <= i < listing@.len() ==> (#[trigger] p.reports@[i] matches Some((c, t)) ==> c <= t)
        },
{
    let ghost ch = chosen_view(entries);
    proof {
        lemma_listed_total_nonneg(listing@, ch);
    }
    let total = match extract_total(listing, entries) {
        Some(t) => t,
        None => {
            return None;
        },
    };
    let mut steps: Vec<ExtractStep> = Vec::new();
    let mut reports: Vec<Option<(u64, u64)>> = Vec::new();
    let mut count: usize = 0;
    let mut current: u64 = 0;
    let mut i: usize = 0;
    while i < listing.len()
        invariant
            i <= listing@.len(),
            ch == chosen_view(entries),
            total == listed_total(listing@, ch),
            steps@.len() == i,
            reports@.len() == i,
            count == written_count(listing@.take(i as int), ch, rule),
            current == written_bytes(listing@.take(i as int), ch, rule),
            forall|j: int|
                0 <= j < i ==> step_is(
                    #[trigger] steps@[j],
                    rule_step(rule, listing@[j].name@, listing@[j].is_dir, ch),
                ),
            forall|j: int|
                0 <= j < i ==> #[trigger] reports@[j] == if written_by(rule, listing@[j], ch) {
                    Some((written_bytes(listing@.take(j + 1), ch, rule) as u64, total))
                } else {
                    None::<(u64, u64)>
                },
            forall|j: int| 0 <= j < i ==> (#[trigger] reports@[j] matches Some((c, t)) ==> c <= t),
        decreases listing.len() - i,
    {
        let e = &listing[i];
        let ghost pre = listing@.take(i as int);
        let ghost next = listing@.take(i + 1);
        assert(next.drop_last() =~= pre);
        assert(next.last() == listing@[i as int]);
        proof {
            lemma_written_within_total(next, ch, rule);
            lemma_listed_total_suffix(listing@, i + 1, ch);
        }
        let step = match rule {
            StepRule::Rar => rar_extract_step(e.name.as_str(), e.is_dir, entries),
            StepRule::Tar => tar_extract_step(e.name.as_str(), e.is_dir, entries),
            StepRule::SevenZip => sevenz_extract_step(e.name.as_str(), e.is_dir, entries),
        };
        let report = match &step {
            ExtractStep::Write(_) => {
                current = current + e.size;
                count = count + 1;
                Some((current, total))
            },
            _ => None,
        };
        steps.push(step);
        reports.push(report);
        i = i + 1;
    }
    assert(listing@.take(i as int) =~= listing@);
    Some(ExtractPlan { steps, reports, extracted: count, total })
}

/// Law: an extraction limited to some entries never writes a file that was
/// not chosen, whichever engine reads the archive (only the 7z engine still
/// creates the directories it meets).
pub proof fn law_unchosen_files_are_never_written(
    name: Seq<char>,
    is_dir: bool,
    chosen: Seq<Seq<char>>,
    m: ZipMeta,
)
    requires
        !chosen.contains(name),
        m.name@ == name,
    ensures
        rar_step_spec(name, is_dir, Some(chosen)) is None,
        tar_step_spec(name, is_dir, Some(chosen)) is None,
        !is_dir ==> sevenz_step_spec(name, is_dir, Some(chosen)) is None,
        forall|s: ZipExtractStep| #[trigger] zip_step_is(s, m, Some(chosen)) ==> s is Skip,
{
}

/// Law: a zip listing never shows the `__MACOSX` metadata entries.
pub proof fn law_listing_hides_metadata(items: Seq<ZipListItem>)
    ensures
        forall|i: int|
            0 <= i < zip_shown(items).len() ==> !starts_with(
                #[trigger] zip_shown(items)[i].name@,
                "__MACOSX/"@,
            ),
    decreases items.len(),
{
    if items.len() > 0 {
        law_listing_hides_metadata(items.drop_last());
        let prev = zip_shown(items.drop_last());
        assert forall|i: int| 0 <= i < zip_shown(items).len() implies !starts_with(
            #[trigger] zip_shown(items)[i].name@,
            "__MACOSX/"@,
        ) by {
            if i < prev.len() {
                assert(zip_shown(items)[i] == prev[i]);
            }
        }
    }
}

} // verus!
