//! Archive formats, how they are named and recognised, and the plain records
//! that the archive operations hand back.

use vstd::prelude::*;

use crate::text::{
    chars_of, ends_with, ends_with_str, eq_str, last_index_of, lemma_ends_differ, lemma_ends_with_concat, lemma_last_index_bounds,
    lemma_lower_concat, lemma_suffix_excludes, lower, lowercase, rfind_char,
};

verus! {

/// Progress of a long operation: bytes (or files) done out of a total
/// (`total == 0` means unknown).
#[derive(Debug)]
pub struct ProgressPayload {
    /// "compress" or "extract".
    pub kind: String,
    pub current: u64,
    pub total: u64,
}

/// The supported archive formats.
#[derive(Clone, Copy, Debug, PartialEq, Eq, Structural)]
pub enum ArchiveFormat {
    Zip,
    SevenZip,
    /// A plain tarball, without a compressor around it.
    Tar,
    TarGz,
    TarBz,
    TarXz,
    TarZstd,
    Gz,
    Bz2,
    Xz,
    Zstd,
    /// RAR can be read but never written (its encoder is proprietary).
    Rar,
}

/// Metadata of one archive entry, available without extracting it.
#[derive(Debug)]
pub struct EntryInfo {
    pub name: String,
    pub size: u64,
    pub compressed_size: Option<u64>,
    pub is_dir: bool,
    pub modified: Option<u64>,
    pub method: Option<String>,
}

/// Summary of a newly written archive.
#[derive(Debug)]
pub struct ArchiveInfo {
    pub path: String,
    pub format: String,
    pub entry_count: usize,
    pub total_size: u64,
}

/// Outcome of an extraction.
#[derive(Debug)]
pub struct ExtractResult {
    pub extracted: usize,
    pub dest: String,
}

/// A preview of an entry without extracting it: text goes in `text`,
/// binary data in `data_base64` with a `mime` type.
#[derive(Debug)]
pub struct PreviewData {
    pub name: String,
    pub mime: String,
    pub text: Option<String>,
    pub data_base64: Option<String>,
    pub truncated: bool,
    pub is_binary: bool,
}

/// Integrity check of one entry.
#[derive(Debug)]
pub struct EntryTestStatus {
    pub name: String,
    pub ok: bool,
    pub error: Option<String>,
}

/// Integrity check of a whole archive.
#[derive(Debug)]
pub struct TestResult {
    pub ok: bool,
    pub entries: Vec<EntryTestStatus>,
}

/// A reusable set of compression settings.
#[derive(Debug)]
pub struct PresetConfig {
    pub name: String,
    pub format: String,
    pub password: Option<String>,
    pub level: u8,
    pub exclude: Vec<String>,
    pub compress_hidden: bool,
}

/// A handle on an entry being edited in a temporary copy.
#[derive(Debug)]
pub struct EditHandle {
    pub handle_id: String,
    pub temp_path: String,
    pub entry_name: String,
}

/// Every character is an ASCII digit.
pub open spec fn all_digits(s: Seq<char>) -> bool {
    forall|i: int| 0 <= i < s.len() ==> '0' <= #[trigger] s[i] && s[i] <= '9'
}

/// What follows the last `.` (all of `s` when there is none), as
/// `s.rsplit('.').next()` gives.
pub open spec fn last_extension(s: Seq<char>) -> Seq<char> {
    s.subrange(last_index_of(s, '.') + 1, s.len() as int)
}

/// A RAR file name: `.rar` (so also `.partN.rar`), or an old-style volume
/// whose extension, after a `.`, is three digits (`.001`) or `r` followed
/// by two digits (`.r01`). A name without a `.` has no extension.
pub open spec fn is_rar_name_spec(p: Seq<char>) -> bool {
    let ext = last_extension(p);
    let has_ext = last_index_of(p, '.') >= 0;
    ||| ends_with(p, ".rar"@)
    ||| has_ext && ext.len() == 3 && all_digits(ext)
    ||| has_ext && ext.len() == 3 && (ext[0] == 'r' || ext[0] == 'R') && all_digits(ext.drop_first())
}

/// The format a file name announces by its (case-insensitive) extension.
pub open spec fn from_ext_spec(path: Seq<char>) -> Option<ArchiveFormat> {
    let p = lower(path);
    if ends_with(p, ".zip"@) || ends_with(p, ".zipx"@) {
        Some(ArchiveFormat::Zip)
    } else if ends_with(p, ".7z"@) {
        Some(ArchiveFormat::SevenZip)
    } else if ends_with(p, ".tar.gz"@) || ends_with(p, ".tgz"@) {
        Some(ArchiveFormat::TarGz)
    } else if ends_with(p, ".tar.bz2"@) || ends_with(p, ".tbz"@) || ends_with(p, ".tbz2"@) {
        Some(ArchiveFormat::TarBz)
    } else if ends_with(p, ".tar.xz"@) || ends_with(p, ".txz"@) {
        Some(ArchiveFormat::TarXz)
    } else if ends_with(p, ".tar.zst"@) || ends_with(p, ".tzst"@) {
        Some(ArchiveFormat::TarZstd)
    } else if ends_with(p, ".tar"@) {
        Some(ArchiveFormat::Tar)
    } else if ends_with(p, ".gz"@) {
        Some(ArchiveFormat::Gz)
    } else if ends_with(p, ".bz2"@) {
        Some(ArchiveFormat::Bz2)
    } else if ends_with(p, ".xz"@) {
        Some(ArchiveFormat::Xz)
    } else if ends_with(p, ".zst"@) {
        Some(ArchiveFormat::Zstd)
    } else if is_rar_name_spec(p) {
        Some(ArchiveFormat::Rar)
    } else {
        None
    }
}

/// The format named by a (case-insensitive) format string.
pub open spec fn from_str_spec(s: Seq<char>) -> Option<ArchiveFormat> {
    let l = lower(s);
    if l == "zip"@ || l == "zipx"@ {
        Some(ArchiveFormat::Zip)
    } else if l == "7z"@ || l == "sevenzip"@ {
        Some(ArchiveFormat::SevenZip)
    } else if l == "tar"@ {
        Some(ArchiveFormat::Tar)
    } else if l == "targz"@ || l == "tgz"@ || l == "tar.gz"@ {
        Some(ArchiveFormat::TarGz)
    } else if l == "tarbz"@ || l == "tbz"@ || l == "tar.bz2"@ {
        Some(ArchiveFormat::TarBz)
    } else if l == "tarxz"@ || l == "txz"@ || l == "tar.xz"@ {
        Some(ArchiveFormat::TarXz)
    } else if l == "tarzstd"@ || l == "tzst"@ || l == "tar.zst"@ {
        Some(ArchiveFormat::TarZstd)
    } else if l == "gz"@ {
        Some(ArchiveFormat::Gz)
    } else if l == "bz2"@ {
        Some(ArchiveFormat::Bz2)
    } else if l == "xz"@ {
        Some(ArchiveFormat::Xz)
    } else if l == "zst"@ {
        Some(ArchiveFormat::Zstd)
    } else if l == "rar"@ {
        Some(ArchiveFormat::Rar)
    } else {
        None
    }
}

/// The canonical name of a format.
pub open spec fn as_str_spec(f: ArchiveFormat) -> Seq<char> {
    match f {
        ArchiveFormat::Zip => "zip"@,
        ArchiveFormat::SevenZip => "7z"@,
        ArchiveFormat::Tar => "tar"@,
        ArchiveFormat::TarGz => "tar.gz"@,
        ArchiveFormat::TarBz => "tar.bz2"@,
        ArchiveFormat::TarXz => "tar.xz"@,
        ArchiveFormat::TarZstd => "tar.zst"@,
        ArchiveFormat::Gz => "gz"@,
        ArchiveFormat::Bz2 => "bz2"@,
        ArchiveFormat::Xz => "xz"@,
        ArchiveFormat::Zstd => "zst"@,
        ArchiveFormat::Rar => "rar"@,
    }
}

fn all_digits_exec(s: &[char]) -> (r: bool)
    ensures
        r == all_digits(s@),
{
    let mut i: usize = 0;
    while i < s.len()
        invariant
            i <= s@.len(),
            forall|j: int| 0 <= j < i ==> '0' <= #[trigger] s@[j] && s@[j] <= '9',
        decreases s.len() - i,
    {
        if !('0' <= s[i] && s[i] <= '9') {
            return false;
        }
        i = i + 1;
    }
    true
}

/// The characters after the last `.` (all of them when there is none).
pub fn last_extension_exec(s: &[char]) -> (r: Vec<char>)
    ensures
        r@ == last_extension(s@),
{
    proof {
        lemma_last_index_bounds(s@, '.');
    }
    let n = s.len();
    let start = match rfind_char(s, '.') {
        Some(i) => i + 1,
        None => 0,
    };
    let mut out: Vec<char> = Vec::new();
    let mut i = start;
    while i < s.len()
        invariant
            start <= i <= s@.len(),
            out@ == s@.subrange(start as int, i as int),
        decreases s.len() - i,
    {
        out.push(s[i]);
        i = i + 1;
        assert(out@ =~= s@.subrange(start as int, i as int));
    }
    out
}

/// Whether a lower-cased file name belongs to the RAR family.
fn is_rar_name(p: &[char]) -> (r: bool)
    ensures
        r == is_rar_name_spec(p@),
{
    if ends_with_str(p, ".rar") {
        return true;
    }
    if rfind_char(p, '.').is_none() {
        return false;
    }
    let ext = last_extension_exec(p);
    if ext.len() == 3 && all_digits_exec(ext.as_slice()) {
        return true;
    }
    if ext.len() == 3 && (ext[0] == 'r' || ext[0] == 'R') {
        let rest = last_extension_exec(p);
        let mut tail: Vec<char> = Vec::new();
        tail.push(rest[1]);
        tail.push(rest[2]);
        assert(tail@ =~= ext@.drop_first());
        return all_digits_exec(tail.as_slice());
    }
    false
}

impl ArchiveFormat {
    /// Recognises the format of `path` by its extension, case-insensitively.
    pub fn from_ext(path: &str) -> (r: Option<ArchiveFormat>)
        ensures
            r == from_ext_spec(path@),
    {
        let pc = chars_of(path);
        let lc = lowercase(pc.as_slice());
        let p = lc.as_slice();
        if ends_with_str(p, ".zip") || ends_with_str(p, ".zipx") {
            Some(ArchiveFormat::Zip)
        } else if ends_with_str(p, ".7z") {
            Some(ArchiveFormat::SevenZip)
        } else if ends_with_str(p, ".tar.gz") || ends_with_str(p, ".tgz") {
            Some(ArchiveFormat::TarGz)
        } else if ends_with_str(p, ".tar.bz2") || ends_with_str(p, ".tbz") || ends_with_str(
            p,
            ".tbz2",
        ) {
            Some(ArchiveFormat::TarBz)
        } else if ends_with_str(p, ".tar.xz") || ends_with_str(p, ".txz") {
            Some(ArchiveFormat::TarXz)
        } else if ends_with_str(p, ".tar.zst") || ends_with_str(p, ".tzst") {
            Some(ArchiveFormat::TarZstd)
        } else if ends_with_str(p, ".tar") {
            Some(ArchiveFormat::Tar)
        } else if ends_with_str(p, ".gz") {
            Some(ArchiveFormat::Gz)
        } else if ends_with_str(p, ".bz2") {
            Some(ArchiveFormat::Bz2)
        } else if ends_with_str(p, ".xz") {
            Some(ArchiveFormat::Xz)
        } else if ends_with_str(p, ".zst") {
            Some(ArchiveFormat::Zstd)
        } else if is_rar_name(p) {
            Some(ArchiveFormat::Rar)
        } else {
            None
        }
    }

    /// Parses a format name such as `"zip"`, `"7z"` or `"tar.gz"`,
    /// case-insensitively.
    pub fn from_str(s: &str) -> (r: Option<ArchiveFormat>)
        ensures
            r == from_str_spec(s@),
    {
        let sc = chars_of(s);
        let lc = lowercase(sc.as_slice());
        let l = lc.as_slice();
        if eq_str(l, "zip") || eq_str(l, "zipx") {
            Some(ArchiveFormat::Zip)
        } else if eq_str(l, "7z") || eq_str(l, "sevenzip") {
            Some(ArchiveFormat::SevenZip)
        } else if eq_str(l, "tar") {
            Some(ArchiveFormat::Tar)
        } else if eq_str(l, "targz") || eq_str(l, "tgz") || eq_str(l, "tar.gz") {
            Some(ArchiveFormat::TarGz)
        } else if eq_str(l, "tarbz") || eq_str(l, "tbz") || eq_str(l, "tar.bz2") {
            Some(ArchiveFormat::TarBz)
        } else if eq_str(l, "tarxz") || eq_str(l, "txz") || eq_str(l, "tar.xz") {
            Some(ArchiveFormat::TarXz)
        } else if eq_str(l, "tarzstd") || eq_str(l, "tzst") || eq_str(l, "tar.zst") {
            Some(ArchiveFormat::TarZstd)
        } else if eq_str(l, "gz") {
            Some(ArchiveFormat::Gz)
        } else if eq_str(l, "bz2") {
            Some(ArchiveFormat::Bz2)
        } else if eq_str(l, "xz") {
            Some(ArchiveFormat::Xz)
        } else if eq_str(l, "zst") {
            Some(ArchiveFormat::Zstd)
        } else if eq_str(l, "rar") {
            Some(ArchiveFormat::Rar)
        } else {
            None
        }
    }

    /// The canonical name of the format.
    pub fn as_str(&self) -> (r: &'static str)
        ensures
            r@ == as_str_spec(*self),
    {
        match self {
            ArchiveFormat::Zip => "zip",
            ArchiveFormat::SevenZip => "7z",
            ArchiveFormat::Tar => "tar",
            ArchiveFormat::TarGz => "tar.gz",
            ArchiveFormat::TarBz => "tar.bz2",
            ArchiveFormat::TarXz => "tar.xz",
            ArchiveFormat::TarZstd => "tar.zst",
            ArchiveFormat::Gz => "gz",
            ArchiveFormat::Bz2 => "bz2",
            ArchiveFormat::Xz => "xz",
            ArchiveFormat::Zstd => "zst",
            ArchiveFormat::Rar => "rar",
        }
    }
}

/// Lower-casing leaves a text without upper-case ASCII letters unchanged.
pub proof fn lemma_lower_id(s: Seq<char>)
    requires
        forall|i: int| 0 <= i < s.len() ==> !('A' <= #[trigger] s[i] && s[i] <= 'Z'),
    ensures
        lower(s) == s,
{
    assert(lower(s) =~= s);
}

/// Law: the canonical name of every format parses back to that format, so a
/// format can be handed on by its name (as re-packing an edited archive does).
pub proof fn law_from_str_as_str(f: ArchiveFormat)
    ensures
        from_str_spec(as_str_spec(f)) == Some(f),
{
    reveal_strlit("zip");
    reveal_strlit("zipx");
    reveal_strlit("7z");
    reveal_strlit("sevenzip");
    reveal_strlit("tar");
    reveal_strlit("targz");
    reveal_strlit("tgz");
    reveal_strlit("tar.gz");
    reveal_strlit("tarbz");
    reveal_strlit("tbz");
    reveal_strlit("tar.bz2");
    reveal_strlit("tarxz");
    reveal_strlit("txz");
    reveal_strlit("tar.xz");
    reveal_strlit("tarzstd");
    reveal_strlit("tzst");
    reveal_strlit("tar.zst");
    reveal_strlit("gz");
    reveal_strlit("bz2");
    reveal_strlit("xz");
    reveal_strlit("zst");
    reveal_strlit("rar");
    let s = as_str_spec(f);
    assert forall|i: int| 0 <= i < s.len() implies !('A' <= #[trigger] s[i] && s[i] <= 'Z') by {
        match f {
            ArchiveFormat::Zip => {},
            ArchiveFormat::SevenZip => {},
            ArchiveFormat::Tar => {},
            ArchiveFormat::TarGz => {},
            ArchiveFormat::TarBz => {},
            ArchiveFormat::TarXz => {},
            ArchiveFormat::TarZstd => {},
            ArchiveFormat::Gz => {},
            ArchiveFormat::Bz2 => {},
            ArchiveFormat::Xz => {},
            ArchiveFormat::Zstd => {},
            ArchiveFormat::Rar => {},
        }
    }
    lemma_lower_id(s);
    assert(lower(s) == s);
    match f {
        ArchiveFormat::Zip => {
        },
        ArchiveFormat::SevenZip => {
            assert(s != "zip"@);
            assert(s != "zipx"@);
        },
        ArchiveFormat::Tar => {
            assert(s[0] != "zip"@[0]);
            assert(s != "zip"@);
            assert(s != "zipx"@);
            assert(s != "7z"@);
            assert(s != "sevenzip"@);
        },
        ArchiveFormat::TarGz => {
            assert(s != "zip"@);
            assert(s != "zipx"@);
            assert(s != "7z"@);
            assert(s != "sevenzip"@);
            assert(s != "tar"@);
        },
        ArchiveFormat::TarBz => {
            assert(s != "zip"@);
            assert(s != "zipx"@);
            assert(s != "7z"@);
            assert(s != "sevenzip"@);
            assert(s != "tar"@);
            assert(s != "targz"@);
            assert(s != "tgz"@);
            assert(s != "tar.gz"@);
        },
        ArchiveFormat::TarXz => {
            assert(s != "zip"@);
            assert(s != "zipx"@);
            assert(s != "7z"@);
            assert(s != "sevenzip"@);
            assert(s != "tar"@);
            assert(s != "targz"@);
            assert(s != "tgz"@);
            assert(s[4] != "tar.gz"@[4]);
            assert(s != "tar.gz"@);
            assert(s != "tarbz"@);
            assert(s != "tbz"@);
            assert(s != "tar.bz2"@);
        },
        ArchiveFormat::TarZstd => {
            assert(s != "zip"@);
            assert(s != "zipx"@);
            assert(s != "7z"@);
            assert(s != "sevenzip"@);
            assert(s != "tar"@);
            assert(s != "targz"@);
            assert(s != "tgz"@);
            assert(s != "tar.gz"@);
            assert(s != "tarbz"@);
            assert(s != "tbz"@);
            assert(s[4] != "tar.bz2"@[4]);
            assert(s != "tar.bz2"@);
            assert(s != "tarxz"@);
            assert(s != "txz"@);
            assert(s != "tar.xz"@);
        },
        ArchiveFormat::Gz => {
            assert(s != "zip"@);
            assert(s != "zipx"@);
            assert(s[0] != "7z"@[0]);
            assert(s != "7z"@);
            assert(s != "sevenzip"@);
            assert(s != "tar"@);
            assert(s != "targz"@);
            assert(s != "tgz"@);
            assert(s != "tar.gz"@);
            assert(s != "tarbz"@);
            assert(s != "tbz"@);
            assert(s != "tar.bz2"@);
            assert(s != "tarxz"@);
            assert(s != "txz"@);
            assert(s != "tar.xz"@);
            assert(s != "tarzstd"@);
            assert(s != "tzst"@);
            assert(s != "tar.zst"@);
        },
        ArchiveFormat::Bz2 => {
            assert(s[0] != "zip"@[0]);
            assert(s != "zip"@);
            assert(s != "zipx"@);
            assert(s != "7z"@);
            assert(s != "sevenzip"@);
            assert(s[0] != "tar"@[0]);
            assert(s != "tar"@);
            assert(s != "targz"@);
            assert(s[0] != "tgz"@[0]);
            assert(s != "tgz"@);
            assert(s != "tar.gz"@);
            assert(s != "tarbz"@);
            assert(s[0] != "tbz"@[0]);
            assert(s != "tbz"@);
            assert(s != "tar.bz2"@);
            assert(s != "tarxz"@);
            assert(s[0] != "txz"@[0]);
            assert(s != "txz"@);
            assert(s != "tar.xz"@);
            assert(s != "tarzstd"@);
            assert(s != "tzst"@);
            assert(s != "tar.zst"@);
            assert(s != "gz"@);
        },
        ArchiveFormat::Xz => {
            assert(s != "zip"@);
            assert(s != "zipx"@);
            assert(s[0] != "7z"@[0]);
            assert(s != "7z"@);
            assert(s != "sevenzip"@);
            assert(s != "tar"@);
            assert(s != "targz"@);
            assert(s != "tgz"@);
            assert(s != "tar.gz"@);
            assert(s != "tarbz"@);
            assert(s != "tbz"@);
            assert(s != "tar.bz2"@);
            assert(s != "tarxz"@);
            assert(s != "txz"@);
            assert(s != "tar.xz"@);
            assert(s != "tarzstd"@);
            assert(s != "tzst"@);
            assert(s != "tar.zst"@);
            assert(s[0] != "gz"@[0]);
            assert(s != "gz"@);
            assert(s != "bz2"@);
        },
        ArchiveFormat::Zstd => {
            assert(s[1] != "zip"@[1]);
            assert(s != "zip"@);
            assert(s != "zipx"@);
            assert(s != "7z"@);
            assert(s != "sevenzip"@);
            assert(s[0] != "tar"@[0]);
            assert(s != "tar"@);
            assert(s != "targz"@);
            assert(s[0] != "tgz"@[0]);
            assert(s != "tgz"@);
            assert(s != "tar.gz"@);
            assert(s != "tarbz"@);
            assert(s[0] != "tbz"@[0]);
            assert(s != "tbz"@);
            assert(s != "tar.bz2"@);
            assert(s != "tarxz"@);
            assert(s[0] != "txz"@[0]);
            assert(s != "txz"@);
            assert(s != "tar.xz"@);
            assert(s != "tarzstd"@);
            assert(s != "tzst"@);
            assert(s != "tar.zst"@);
            assert(s != "gz"@);
            assert(s[0] != "bz2"@[0]);
            assert(s != "bz2"@);
            assert(s != "xz"@);
        },
        ArchiveFormat::Rar => {
            assert(s[0] != "zip"@[0]);
            assert(s != "zip"@);
            assert(s != "zipx"@);
            assert(s != "7z"@);
            assert(s != "sevenzip"@);
            assert(s[0] != "tar"@[0]);
            assert(s != "tar"@);
            assert(s != "targz"@);
            assert(s[0] != "tgz"@[0]);
            assert(s != "tgz"@);
            assert(s != "tar.gz"@);
            assert(s != "tarbz"@);
            assert(s[0] != "tbz"@[0]);
            assert(s != "tbz"@);
            assert(s != "tar.bz2"@);
            assert(s != "tarxz"@);
            assert(s[0] != "txz"@[0]);
            assert(s != "txz"@);
            assert(s != "tar.xz"@);
            assert(s != "tarzstd"@);
            assert(s != "tzst"@);
            assert(s != "tar.zst"@);
            assert(s != "gz"@);
            assert(s[0] != "bz2"@[0]);
            assert(s != "bz2"@);
            assert(s != "xz"@);
            assert(s[0] != "zst"@[0]);
            assert(s != "zst"@);
        },
    }
}

/// Law: a file named `<stem>.<name of f>` is recognised as `f`, so an
/// archive written under its format's canonical extension is read back with
/// the same engine. A single-stream name on a stem that already ends with
/// `.tar` reads as the tarball format instead (`x.tar` + `.gz` is `.tar.gz`),
/// and is left out.
pub proof fn law_from_ext_of_format_name(stem: Seq<char>, f: ArchiveFormat)
    requires
        (f == ArchiveFormat::Gz || f == ArchiveFormat::Bz2 || f == ArchiveFormat::Xz || f
            == ArchiveFormat::Zstd) ==> !ends_with(lower(stem), ".tar"@),
    ensures
        from_ext_spec(stem + "."@ + as_str_spec(f)) == Some(f),
{
    reveal_strlit(".");
    reveal_strlit(".tar");
    reveal_strlit(".zip");
    reveal_strlit(".zipx");
    reveal_strlit(".7z");
    reveal_strlit(".tar.gz");
    reveal_strlit(".tgz");
    reveal_strlit(".tar.bz2");
    reveal_strlit(".tbz");
    reveal_strlit(".tbz2");
    reveal_strlit(".tar.xz");
    reveal_strlit(".txz");
    reveal_strlit(".tar.zst");
    reveal_strlit(".tzst");
    reveal_strlit(".gz");
    reveal_strlit(".bz2");
    reveal_strlit(".xz");
    reveal_strlit(".zst");
    reveal_strlit(".rar");
    reveal_strlit("zip");
    reveal_strlit("7z");
    reveal_strlit("tar");
    reveal_strlit("tar.gz");
    reveal_strlit("tar.bz2");
    reveal_strlit("tar.xz");
    reveal_strlit("tar.zst");
    reveal_strlit("gz");
    reveal_strlit("bz2");
    reveal_strlit("xz");
    reveal_strlit("zst");
    reveal_strlit("rar");
    let a = as_str_spec(f);
    let t = "."@ + a;
    let l = lower(stem);
    assert(stem + "."@ + a =~= stem + t);
    lemma_lower_concat(stem, t);
    assert(lower(t) =~= t) by {
        assert forall|i: int| 0 <= i < t.len() implies lower(t)[i] == t[i] by {
            match f {
                ArchiveFormat::Zip => {},
                ArchiveFormat::SevenZip => {},
                ArchiveFormat::Tar => {},
                ArchiveFormat::TarGz => {},
                ArchiveFormat::TarBz => {},
                ArchiveFormat::TarXz => {},
                ArchiveFormat::TarZstd => {},
                ArchiveFormat::Gz => {},
                ArchiveFormat::Bz2 => {},
                ArchiveFormat::Xz => {},
                ArchiveFormat::Zstd => {},
                ArchiveFormat::Rar => {},
            }
        }
    }
    let p = l + t;
    assert(lower(stem + "."@ + a) == p);
    lemma_ends_with_concat(l, t, ".zip"@);
    lemma_ends_with_concat(l, t, ".zipx"@);
    lemma_ends_with_concat(l, t, ".7z"@);
    lemma_ends_with_concat(l, t, ".tar.gz"@);
    lemma_ends_with_concat(l, t, ".tgz"@);
    lemma_ends_with_concat(l, t, ".tar.bz2"@);
    lemma_ends_with_concat(l, t, ".tbz"@);
    lemma_ends_with_concat(l, t, ".tbz2"@);
    lemma_ends_with_concat(l, t, ".tar.xz"@);
    lemma_ends_with_concat(l, t, ".txz"@);
    lemma_ends_with_concat(l, t, ".tar.zst"@);
    lemma_ends_with_concat(l, t, ".tzst"@);
    lemma_ends_with_concat(l, t, ".tar"@);
    lemma_ends_with_concat(l, t, ".gz"@);
    lemma_ends_with_concat(l, t, ".bz2"@);
    lemma_ends_with_concat(l, t, ".xz"@);
    lemma_ends_with_concat(l, t, ".zst"@);
    lemma_ends_with_concat(l, t, ".rar"@);
    match f {
        ArchiveFormat::Zip => {
            assert(t =~= ".zip"@);
            assert(t.subrange(0, t.len() as int) =~= t);
            assert(ends_with(t, ".zip"@));
            assert(from_ext_spec(stem + "."@ + a) == Some(f));
            assert(ends_with(p, ".zip"@));
            assert(ends_with(lower(stem + "."@ + a), ".zip"@));
            assert(from_ext_spec(stem + "."@ + a) == Some(ArchiveFormat::Zip));
        },
        ArchiveFormat::SevenZip => {
            lemma_ends_differ(".zip"@, t, 0);
            lemma_ends_differ(".zipx"@, t, 0);
            assert(t =~= ".7z"@);
            assert(t.subrange(0, t.len() as int) =~= t);
        },
        ArchiveFormat::Tar => {
            lemma_ends_differ(t, ".zip"@, 0);
            lemma_ends_differ(".zipx"@, t, 0);
            lemma_ends_differ(t, ".7z"@, 0);
            lemma_ends_differ(".tar.gz"@, t, 0);
            lemma_ends_differ(".tgz"@, t, 0);
            lemma_ends_differ(".tar.bz2"@, t, 0);
            lemma_ends_differ(t, ".tbz"@, 0);
            lemma_ends_differ(".tbz2"@, t, 0);
            lemma_ends_differ(".tar.xz"@, t, 0);
            lemma_ends_differ(t, ".txz"@, 0);
            lemma_ends_differ(".tar.zst"@, t, 0);
            lemma_ends_differ(".tzst"@, t, 0);
            assert(t =~= ".tar"@);
            assert(t.subrange(0, t.len() as int) =~= t);
            assert(ends_with(t, ".tar"@));
            assert(from_ext_spec(stem + "."@ + a) == Some(f));
        },
        ArchiveFormat::TarGz => {
            lemma_ends_differ(t, ".zip"@, 0);
            lemma_ends_differ(t, ".zipx"@, 0);
            lemma_ends_differ(t, ".7z"@, 1);
            assert(t.subrange(t.len() - ".tar.gz"@.len(), t.len() as int) =~= ".tar.gz"@);
            assert(ends_with(t, ".tar.gz"@));
            assert(from_ext_spec(stem + "."@ + a) == Some(f));
        },
        ArchiveFormat::TarBz => {
            lemma_ends_differ(t, ".zip"@, 0);
            lemma_ends_differ(t, ".zipx"@, 0);
            lemma_ends_differ(t, ".7z"@, 0);
            lemma_ends_differ(t, ".tar.gz"@, 0);
            lemma_ends_differ(t, ".tgz"@, 0);
            assert(t.subrange(t.len() - ".tar.bz2"@.len(), t.len() as int) =~= ".tar.bz2"@);
            assert(ends_with(t, ".tar.bz2"@));
            assert(from_ext_spec(stem + "."@ + a) == Some(f));
        },
        ArchiveFormat::TarXz => {
            lemma_ends_differ(t, ".zip"@, 0);
            lemma_ends_differ(t, ".zipx"@, 0);
            lemma_ends_differ(t, ".7z"@, 1);
            lemma_ends_differ(t, ".tar.gz"@, 1);
            lemma_ends_differ(t, ".tgz"@, 1);
            lemma_ends_differ(".tar.bz2"@, t, 0);
            lemma_ends_differ(t, ".tbz"@, 1);
            lemma_ends_differ(t, ".tbz2"@, 0);
            assert(t.subrange(t.len() - ".tar.xz"@.len(), t.len() as int) =~= ".tar.xz"@);
            assert(ends_with(t, ".tar.xz"@));
            assert(from_ext_spec(stem + "."@ + a) == Some(f));
        },
        ArchiveFormat::TarZstd => {
            lemma_ends_differ(t, ".zip"@, 0);
            lemma_ends_differ(t, ".zipx"@, 0);
            lemma_ends_differ(t, ".7z"@, 0);
            lemma_ends_differ(t, ".tar.gz"@, 0);
            lemma_ends_differ(t, ".tgz"@, 0);
            lemma_ends_differ(t, ".tar.bz2"@, 0);
            lemma_ends_differ(t, ".tbz"@, 0);
            lemma_ends_differ(t, ".tbz2"@, 0);
            lemma_ends_differ(t, ".tar.xz"@, 0);
            lemma_ends_differ(t, ".txz"@, 0);
            assert(t.subrange(t.len() - ".tar.zst"@.len(), t.len() as int) =~= ".tar.zst"@);
            assert(ends_with(t, ".tar.zst"@));
            assert(from_ext_spec(stem + "."@ + a) == Some(f));
        },
        ArchiveFormat::Gz => {
            lemma_ends_differ(".tar"@, t, 0);
            lemma_ends_differ(".zip"@, t, 0);
            lemma_ends_differ(".zipx"@, t, 0);
            lemma_ends_differ(t, ".7z"@, 1);
            assert(".tar.gz"@.take(4) =~= ".tar"@);
            lemma_ends_differ(".tgz"@, t, 2);
            assert(t.subrange(t.len() - ".gz"@.len(), t.len() as int) =~= ".gz"@);
            assert(ends_with(t, ".gz"@));
            assert(from_ext_spec(stem + "."@ + a) == Some(f));
        },
        ArchiveFormat::Bz2 => {
            lemma_ends_differ(t, ".tar"@, 0);
            lemma_ends_differ(t, ".zip"@, 0);
            lemma_ends_differ(".zipx"@, t, 0);
            lemma_ends_differ(t, ".7z"@, 0);
            lemma_ends_differ(".tar.gz"@, t, 0);
            lemma_ends_differ(t, ".tgz"@, 0);
            assert(".tar.bz2"@.take(4) =~= ".tar"@);
            lemma_ends_differ(t, ".tbz"@, 0);
            lemma_ends_differ(".tbz2"@, t, 3);
            lemma_ends_differ(".tar.xz"@, t, 0);
            lemma_ends_differ(t, ".txz"@, 0);
            lemma_ends_differ(".tar.zst"@, t, 0);
            lemma_ends_differ(".tzst"@, t, 0);
            lemma_ends_differ(t, ".gz"@, 0);
            assert(t.subrange(t.len() - ".bz2"@.len(), t.len() as int) =~= ".bz2"@);
            assert(ends_with(t, ".bz2"@));
            assert(from_ext_spec(stem + "."@ + a) == Some(f));
        },
        ArchiveFormat::Xz => {
            lemma_ends_differ(".tar"@, t, 0);
            lemma_ends_differ(".zip"@, t, 0);
            lemma_ends_differ(".zipx"@, t, 0);
            lemma_ends_differ(t, ".7z"@, 1);
            lemma_ends_differ(".tar.gz"@, t, 1);
            lemma_ends_differ(".tgz"@, t, 1);
            lemma_ends_differ(".tar.bz2"@, t, 0);
            lemma_ends_differ(".tbz"@, t, 1);
            lemma_ends_differ(".tbz2"@, t, 0);
            assert(".tar.xz"@.take(4) =~= ".tar"@);
            lemma_ends_differ(".txz"@, t, 2);
            lemma_ends_differ(".tar.zst"@, t, 0);
            lemma_ends_differ(".tzst"@, t, 0);
            lemma_ends_differ(t, ".gz"@, 1);
            lemma_ends_differ(".bz2"@, t, 0);
            assert(t.subrange(t.len() - ".xz"@.len(), t.len() as int) =~= ".xz"@);
            assert(ends_with(t, ".xz"@));
            assert(from_ext_spec(stem + "."@ + a) == Some(f));
        },
        ArchiveFormat::Zstd => {
            lemma_ends_differ(t, ".tar"@, 0);
            lemma_ends_differ(t, ".zip"@, 0);
            lemma_ends_differ(".zipx"@, t, 0);
            lemma_ends_differ(t, ".7z"@, 0);
            lemma_ends_differ(".tar.gz"@, t, 0);
            lemma_ends_differ(t, ".tgz"@, 0);
            lemma_ends_differ(".tar.bz2"@, t, 0);
            lemma_ends_differ(t, ".tbz"@, 0);
            lemma_ends_differ(".tbz2"@, t, 0);
            lemma_ends_differ(".tar.xz"@, t, 0);
            lemma_ends_differ(t, ".txz"@, 0);
            assert(".tar.zst"@.take(4) =~= ".tar"@);
            lemma_ends_differ(".tzst"@, t, 3);
            lemma_ends_differ(t, ".gz"@, 0);
            lemma_ends_differ(t, ".bz2"@, 0);
            lemma_ends_differ(t, ".xz"@, 0);
            assert(t.subrange(t.len() - ".zst"@.len(), t.len() as int) =~= ".zst"@);
            assert(ends_with(t, ".zst"@));
            assert(from_ext_spec(stem + "."@ + a) == Some(f));
        },
        ArchiveFormat::Rar => {
            lemma_ends_differ(t, ".tar"@, 2);
            lemma_ends_differ(t, ".zip"@, 0);
            lemma_ends_differ(".zipx"@, t, 0);
            lemma_ends_differ(t, ".7z"@, 0);
            lemma_ends_differ(".tar.gz"@, t, 0);
            lemma_ends_differ(t, ".tgz"@, 0);
            lemma_ends_differ(".tar.bz2"@, t, 0);
            lemma_ends_differ(t, ".tbz"@, 0);
            lemma_ends_differ(".tbz2"@, t, 0);
            lemma_ends_differ(".tar.xz"@, t, 0);
            lemma_ends_differ(t, ".txz"@, 0);
            lemma_ends_differ(".tar.zst"@, t, 0);
            lemma_ends_differ(".tzst"@, t, 0);
            lemma_ends_differ(t, ".gz"@, 0);
            lemma_ends_differ(t, ".bz2"@, 0);
            lemma_ends_differ(t, ".xz"@, 0);
            lemma_ends_differ(t, ".zst"@, 0);
            assert(t.subrange(t.len() - ".rar"@.len(), t.len() as int) =~= ".rar"@);
            assert(ends_with(t, ".rar"@));
            assert(from_ext_spec(stem + "."@ + a) == Some(f));
        },
    }
}


/// Law: the short alias extensions name their tarball formats, whatever the
/// case of the name: `.tgz` is tar.gz, `.tbz` and `.tbz2` are tar.bz2,
/// `.txz` is tar.xz and `.tzst` is tar.zst, as `.zipx` is zip.
pub proof fn law_alias_extensions(name: Seq<char>)
    ensures
        ends_with(lower(name), ".zipx"@) ==> from_ext_spec(name) == Some(ArchiveFormat::Zip),
        ends_with(lower(name), ".tgz"@) ==> from_ext_spec(name) == Some(ArchiveFormat::TarGz),
        ends_with(lower(name), ".tbz"@) ==> from_ext_spec(name) == Some(ArchiveFormat::TarBz),
        ends_with(lower(name), ".tbz2"@) ==> from_ext_spec(name) == Some(ArchiveFormat::TarBz),
        ends_with(lower(name), ".txz"@) ==> from_ext_spec(name) == Some(ArchiveFormat::TarXz),
        ends_with(lower(name), ".tzst"@) ==> from_ext_spec(name) == Some(ArchiveFormat::TarZstd),
{
    reveal_strlit(".zip");
    reveal_strlit(".zipx");
    reveal_strlit(".7z");
    reveal_strlit(".tar.gz");
    reveal_strlit(".tgz");
    reveal_strlit(".tar.bz2");
    reveal_strlit(".tbz");
    reveal_strlit(".tbz2");
    reveal_strlit(".tar.xz");
    reveal_strlit(".txz");
    reveal_strlit(".tar.zst");
    reveal_strlit(".tzst");
    let p = lower(name);
    if ends_with(p, ".tgz"@) {
        lemma_suffix_excludes(p, ".tgz"@, ".zip"@, 0);
        lemma_suffix_excludes(p, ".tgz"@, ".zipx"@, 0);
        lemma_suffix_excludes(p, ".tgz"@, ".7z"@, 1);
    }
    if ends_with(p, ".tbz"@) {
        lemma_suffix_excludes(p, ".tbz"@, ".zip"@, 0);
        lemma_suffix_excludes(p, ".tbz"@, ".zipx"@, 0);
        lemma_suffix_excludes(p, ".tbz"@, ".7z"@, 1);
        lemma_suffix_excludes(p, ".tbz"@, ".tar.gz"@, 1);
        lemma_suffix_excludes(p, ".tbz"@, ".tgz"@, 1);
    }
    if ends_with(p, ".tbz2"@) {
        lemma_suffix_excludes(p, ".tbz2"@, ".zip"@, 0);
        lemma_suffix_excludes(p, ".tbz2"@, ".zipx"@, 0);
        lemma_suffix_excludes(p, ".tbz2"@, ".7z"@, 0);
        lemma_suffix_excludes(p, ".tbz2"@, ".tar.gz"@, 0);
        lemma_suffix_excludes(p, ".tbz2"@, ".tgz"@, 0);
    }
    if ends_with(p, ".txz"@) {
        lemma_suffix_excludes(p, ".txz"@, ".zip"@, 0);
        lemma_suffix_excludes(p, ".txz"@, ".zipx"@, 0);
        lemma_suffix_excludes(p, ".txz"@, ".7z"@, 1);
        lemma_suffix_excludes(p, ".txz"@, ".tar.gz"@, 1);
        lemma_suffix_excludes(p, ".txz"@, ".tgz"@, 1);
        lemma_suffix_excludes(p, ".txz"@, ".tar.bz2"@, 0);
        lemma_suffix_excludes(p, ".txz"@, ".tbz"@, 1);
        lemma_suffix_excludes(p, ".txz"@, ".tbz2"@, 0);
    }
    if ends_with(p, ".tzst"@) {
        lemma_suffix_excludes(p, ".tzst"@, ".zip"@, 0);
        lemma_suffix_excludes(p, ".tzst"@, ".zipx"@, 0);
        lemma_suffix_excludes(p, ".tzst"@, ".7z"@, 0);
        lemma_suffix_excludes(p, ".tzst"@, ".tar.gz"@, 0);
        lemma_suffix_excludes(p, ".tzst"@, ".tgz"@, 0);
        lemma_suffix_excludes(p, ".tzst"@, ".tar.bz2"@, 0);
        lemma_suffix_excludes(p, ".tzst"@, ".tbz"@, 0);
        lemma_suffix_excludes(p, ".tzst"@, ".tbz2"@, 0);
        lemma_suffix_excludes(p, ".tzst"@, ".tar.xz"@, 0);
        lemma_suffix_excludes(p, ".tzst"@, ".txz"@, 0);
    }
    if ends_with(p, ".zipx"@) {
        lemma_suffix_excludes(p, ".zipx"@, ".zip"@, 0);
    }
}

} // verus!
