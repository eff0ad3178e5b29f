//! Single-stream archives (`.gz`, `.bz2`, `.xz`, `.zst`): one file
//! compressed as one stream, without a tar around it. The codecs are those
//! of the `flate2`, `bzip2`, `xz2` and `zstd` crates, applied to bytes in
//! memory; reading and writing the files happens at the edge of the program.

use std::io::Read;
use std::io::Write;

use vstd::prelude::*;

use crate::error::{archive_msg, is_archive_err, is_unsupported_err, unsupported_msg, AppError, AppResult};
use crate::model::{as_str_spec, ArchiveFormat, ArchiveInfo, EntryInfo, ExtractResult, PreviewData, TestResult};
use crate::paths::{derived_name, derived_name_spec};
use crate::preview::{mime_for_spec, preview_of, preview_stream_data, single_is_binary};

verus! {

/// What a compressor produced from `data`, or the text of its I/O error.
pub type Coded = Result<Seq<u8>, Seq<char>>;

/// What a decompressor read from a stream: at most `limit` bytes of output,
/// or its failure, which tells whether it came when the decoder was set up
/// (`true`) or while reading (`false`), with the error's text.
pub type Decoded = Result<Seq<u8>, (bool, Seq<char>)>;

/// The gzip stream `flate2` writes for `data` at `level`.
pub uninterp spec fn gzip_encoded(data: Seq<u8>, level: u32) -> Coded;

/// The bzip2 stream the `bzip2` crate writes for `data` at `level`.
pub uninterp spec fn bzip2_encoded(data: Seq<u8>, level: u32) -> Coded;

/// The xz stream `xz2` writes for `data` at preset `level`.
pub uninterp spec fn xz_encoded(data: Seq<u8>, level: u32) -> Coded;

/// The zstd frame the `zstd` crate writes for `data` at `level`.
pub uninterp spec fn zstd_encoded(data: Seq<u8>, level: i32) -> Coded;

/// What `flate2`'s gzip decoder reads from `data`, up to `limit` bytes.
pub uninterp spec fn gzip_decoded(data: Seq<u8>, limit: u64) -> Decoded;

/// What the `bzip2` crate's decoder reads from `data`, up to `limit` bytes.
pub uninterp spec fn bzip2_decoded(data: Seq<u8>, limit: u64) -> Decoded;

/// What `xz2`'s decoder reads from `data`, up to `limit` bytes.
pub uninterp spec fn xz_decoded(data: Seq<u8>, limit: u64) -> Decoded;

/// What the `zstd` crate's decoder reads from `data`, up to `limit` bytes.
pub uninterp spec fn zstd_decoded(data: Seq<u8>, limit: u64) -> Decoded;

/// `data` is the gzip stream `flate2` writes for `orig` at some level.
pub open spec fn gzip_written(orig: Seq<u8>, data: Seq<u8>) -> bool {
    exists|level: u32| #[trigger] gzip_encoded(orig, level) == Ok::<Seq<u8>, Seq<char>>(data)
}

/// `data` is the bzip2 stream the `bzip2` crate writes for `orig` at some level.
pub open spec fn bzip2_written(orig: Seq<u8>, data: Seq<u8>) -> bool {
    exists|level: u32| #[trigger] bzip2_encoded(orig, level) == Ok::<Seq<u8>, Seq<char>>(data)
}

/// `data` is the xz stream `xz2` writes for `orig` at some level.
pub open spec fn xz_written(orig: Seq<u8>, data: Seq<u8>) -> bool {
    exists|level: u32| #[trigger] xz_encoded(orig, level) == Ok::<Seq<u8>, Seq<char>>(data)
}

/// `data` is the zstd frame the `zstd` crate writes for `orig` at some level.
pub open spec fn zstd_written(orig: Seq<u8>, data: Seq<u8>) -> bool {
    exists|level: i32| #[trigger] zstd_encoded(orig, level) == Ok::<Seq<u8>, Seq<char>>(data)
}

/// At most the first `limit` bytes of `s`.
pub open spec fn cut(s: Seq<u8>, limit: u64) -> Seq<u8> {
    s.take(if s.len() < limit { s.len() as int } else { limit as int })
}

/// The view of a compressor's outcome.
pub open spec fn coded_view(r: Result<Vec<u8>, String>) -> Coded {
    match r {
        Ok(v) => Ok(v@),
        Err(m) => Err(m@),
    }
}

/// A decoder's failure: whether it happened while setting the decoder up,
/// and the error's text.
pub struct DecodeFailure {
    pub at_open: bool,
    pub message: String,
}

/// The view of a decompressor's outcome.
pub open spec fn decoded_view(r: Result<Vec<u8>, DecodeFailure>) -> Decoded {
    match r {
        Ok(v) => Ok(v@),
        Err(f) => Err((f.at_open, f.message@)),
    }
}

/// `flate2::write::GzEncoder` over a `Vec<u8>` (flate2 crate): writes all
/// of `data` and finishes the stream. The bytes are named, not described.
/// Levels run from 0 to 9 (the miniz_oxide backend also takes 10); setting
/// the compressor up asserts a level of at most 10.
#[verifier::external_body]
fn gzip_encode(data: &[u8], level: u32) -> (r: Result<Vec<u8>, String>)
    requires
        level <= 10,
    ensures
        coded_view(r) == gzip_encoded(data@, level),
{
    let mut enc = flate2::write::GzEncoder::new(Vec::new(), flate2::Compression::new(level));
    let r = match enc.write_all(data) {
        Ok(()) => enc.finish(),
        Err(e) => Err(e),
    };
    match r {
        Ok(v) => Ok(v),
        Err(e) => Err(e.to_string()),
    }
}

/// `bzip2::write::BzEncoder` over a `Vec<u8>` (bzip2 crate). Its
/// constructor asserts that libbzip2 accepted the block size, which holds
/// only for levels 1 to 9.
#[verifier::external_body]
fn bzip2_encode(data: &[u8], level: u32) -> (r: Result<Vec<u8>, String>)
    requires
        1 <= level <= 9,
    ensures
        coded_view(r) == bzip2_encoded(data@, level),
{
    let mut enc = bzip2::write::BzEncoder::new(Vec::new(), bzip2::Compression::new(level));
    let r = match enc.write_all(data) {
        Ok(()) => enc.finish(),
        Err(e) => Err(e),
    };
    match r {
        Ok(v) => Ok(v),
        Err(e) => Err(e.to_string()),
    }
}

/// `xz2::write::XzEncoder` over a `Vec<u8>` (xz2 crate). Its constructor
/// unwraps liblzma's preset check, which passes only for presets 0 to 9.
#[verifier::external_body]
fn xz_encode(data: &[u8], level: u32) -> (r: Result<Vec<u8>, String>)
    requires
        level <= 9,
    ensures
        coded_view(r) == xz_encoded(data@, level),
{
    let mut enc = xz2::write::XzEncoder::new(Vec::new(), level);
    let r = match enc.write_all(data) {
        Ok(()) => enc.finish(),
        Err(e) => Err(e),
    };
    match r {
        Ok(v) => Ok(v),
        Err(e) => Err(e.to_string()),
    }
}

/// `zstd::stream::write::Encoder` over a `Vec<u8>` (zstd crate); setting
/// the encoder up can fail, like writing.
#[verifier::external_body]
fn zstd_encode(data: &[u8], level: i32) -> (r: Result<Vec<u8>, String>)
    ensures
        coded_view(r) == zstd_encoded(data@, level),
{
    let r = match zstd::stream::write::Encoder::new(Vec::new(), level) {
        Ok(mut enc) => match enc.write_all(data) {
            Ok(()) => enc.finish(),
            Err(e) => Err(e),
        },
        Err(e) => Err(e),
    };
    match r {
        Ok(v) => Ok(v),
        Err(e) => Err(e.to_string()),
    }
}

/// `flate2::read::GzDecoder` over `data` (flate2 crate), read to the end
/// through `Read::take(limit)`; its set-up cannot fail. Gzip is lossless:
/// a stream `flate2` wrote for some bytes reads back as those bytes (cut at
/// `limit`).
#[verifier::external_body]
fn gzip_decode(data: &[u8], limit: u64) -> (r: Result<Vec<u8>, DecodeFailure>)
    ensures
        decoded_view(r) == gzip_decoded(data@, limit),
        r matches Err(f) ==> !f.at_open,
        forall|orig: Seq<u8>| #[trigger] gzip_written(orig, data@) ==> match r {
            Ok(v) => v@ == cut(orig, limit),
            Err(_) => false,
        },
{
    let mut buf = Vec::new();
    match flate2::read::GzDecoder::new(data).take(limit).read_to_end(&mut buf) {
        Ok(_) => Ok(buf),
        Err(e) => Err(DecodeFailure { at_open: false, message: e.to_string() }),
    }
}

/// `bzip2::read::BzDecoder` over `data` (bzip2 crate), read to the end
/// through `Read::take(limit)`; its set-up cannot fail. A stream the crate
/// wrote for some bytes reads back as those bytes (cut at `limit`).
#[verifier::external_body]
fn bzip2_decode(data: &[u8], limit: u64) -> (r: Result<Vec<u8>, DecodeFailure>)
    ensures
        decoded_view(r) == bzip2_decoded(data@, limit),
        r matches Err(f) ==> !f.at_open,
        forall|orig: Seq<u8>| #[trigger] bzip2_written(orig, data@) ==> match r {
            Ok(v) => v@ == cut(orig, limit),
            Err(_) => false,
        },
{
    let mut buf = Vec::new();
    match bzip2::read::BzDecoder::new(data).take(limit).read_to_end(&mut buf) {
        Ok(_) => Ok(buf),
        Err(e) => Err(DecodeFailure { at_open: false, message: e.to_string() }),
    }
}

/// `xz2::read::XzDecoder` over `data` (xz2 crate), read to the end through
/// `Read::take(limit)`; its set-up cannot fail. A stream the crate wrote
/// for some bytes reads back as those bytes (cut at `limit`).
#[verifier::external_body]
fn xz_decode(data: &[u8], limit: u64) -> (r: Result<Vec<u8>, DecodeFailure>)
    ensures
        decoded_view(r) == xz_decoded(data@, limit),
        r matches Err(f) ==> !f.at_open,
        forall|orig: Seq<u8>| #[trigger] xz_written(orig, data@) ==> match r {
            Ok(v) => v@ == cut(orig, limit),
            Err(_) => false,
        },
{
    let mut buf = Vec::new();
    match xz2::read::XzDecoder::new(data).take(limit).read_to_end(&mut buf) {
        Ok(_) => Ok(buf),
        Err(e) => Err(DecodeFailure { at_open: false, message: e.to_string() }),
    }
}

/// `zstd::stream::read::Decoder` over `data` (zstd crate), read to the end
/// through `Read::take(limit)`; setting the decoder up can fail. A frame
/// the crate wrote for some bytes reads back as those bytes (cut at
/// `limit`) unless the set-up failed; that the set-up never fails is left
/// unsaid.
#[verifier::external_body]
fn zstd_decode(data: &[u8], limit: u64) -> (r: Result<Vec<u8>, DecodeFailure>)
    ensures
        decoded_view(r) == zstd_decoded(data@, limit),
        forall|orig: Seq<u8>| #[trigger] zstd_written(orig, data@) ==> match r {
                Ok(v) => v@ == cut(orig, limit),
                Err(f) => f.at_open,
            },
{
    let mut buf = Vec::new();
    match zstd::stream::read::Decoder::new(data) {
        Ok(dec) => match dec.take(limit).read_to_end(&mut buf) {
            Ok(_) => Ok(buf),
            Err(e) => Err(DecodeFailure { at_open: false, message: e.to_string() }),
        },
        Err(e) => Err(DecodeFailure { at_open: true, message: e.to_string() }),
    }
}

/// The format is a single-stream one.
pub open spec fn is_single(fmt: ArchiveFormat) -> bool {
    fmt == ArchiveFormat::Gz || fmt == ArchiveFormat::Bz2 || fmt == ArchiveFormat::Xz || fmt
        == ArchiveFormat::Zstd
}

/// The levels a codec accepts without panicking: bzip2 1 to 9, xz at most
/// 9 (gzip levels are capped at 10 before they reach the codec).
pub open spec fn level_ok(fmt: ArchiveFormat, level: u8) -> bool {
    &&& fmt == ArchiveFormat::Bz2 ==> 1 <= level <= 9
    &&& fmt == ArchiveFormat::Xz ==> level <= 9
}

/// The gzip level handed to flate2: levels above 10 are capped at 10. Its
/// miniz_oxide backend caps them so too (with the same header), but first
/// asserts, in debug builds, that the level is at most 10.
pub open spec fn gzip_level(level: u8) -> u8 {
    if level > 10 {
        10
    } else {
        level
    }
}

/// The stream a single-stream format's codec makes of `data`.
pub open spec fn encoded_spec(fmt: ArchiveFormat, level: u8, data: Seq<u8>) -> Coded {
    match fmt {
        ArchiveFormat::Gz => gzip_encoded(data, gzip_level(level) as u32),
        ArchiveFormat::Bz2 => bzip2_encoded(data, level as u32),
        ArchiveFormat::Xz => xz_encoded(data, level as u32),
        _ => zstd_encoded(data, level as i32),
    }
}

/// What a single-stream format's decoder reads from `data`, up to `limit`.
pub open spec fn decoded_spec(fmt: ArchiveFormat, data: Seq<u8>, limit: u64) -> Decoded {
    match fmt {
        ArchiveFormat::Gz => gzip_decoded(data, limit),
        ArchiveFormat::Bz2 => bzip2_decoded(data, limit),
        ArchiveFormat::Xz => xz_decoded(data, limit),
        _ => zstd_decoded(data, limit),
    }
}

/// `e` is an I/O error with the text `m`.
pub open spec fn is_io_err(e: AppError, m: Seq<char>) -> bool {
    e matches AppError::Io(d) && d@ == m
}

/// The refusal of a format that is not a single stream.
pub open spec fn not_single_msg() -> Seq<char> {
    "非单文件格式"@
}

/// Compresses `data` as one stream of format `fmt`.
pub fn encode_single(fmt: ArchiveFormat, level: u8, data: &[u8]) -> (r: AppResult<Vec<u8>>)
    requires
        level_ok(fmt, level),
    ensures
        !is_single(fmt) ==> (r matches Err(e) && is_unsupported_err(e, not_single_msg())),
        is_single(fmt) ==> match encoded_spec(fmt, level, data@) {
            Ok(b) => r matches Ok(v) && v@ == b,
            Err(m) => r matches Err(e) && is_io_err(e, m),
        },
{
    let coded = match fmt {
        ArchiveFormat::Gz => gzip_encode(data, if level > 10 { 10 } else { level as u32 }),
        ArchiveFormat::Bz2 => bzip2_encode(data, level as u32),
        ArchiveFormat::Xz => xz_encode(data, level as u32),
        ArchiveFormat::Zstd => zstd_encode(data, level as i32),
        _ => {
            return Err(unsupported_msg("非单文件格式"));
        },
    };
    match coded {
        Ok(v) => Ok(v),
        Err(m) => Err(AppError::Io(m)),
    }
}

/// Decompresses up to `limit` bytes of a single stream of format `fmt`.
pub fn decode_single(fmt: ArchiveFormat, data: &[u8], limit: u64) -> (r: AppResult<
    Result<Vec<u8>, String>,
>)
    ensures
        !is_single(fmt) ==> (r matches Err(e) && is_unsupported_err(e, not_single_msg())),
        is_single(fmt) ==> match decoded_spec(fmt, data@, limit) {
            Ok(b) => r matches Ok(Ok(v)) && v@ == b,
            Err((true, m)) => r matches Err(e) && is_io_err(e, m),
            Err((false, m)) => r matches Ok(Err(t)) && t@ == m,
        },
        forall|orig: Seq<u8>, level: u8|
            is_single(fmt) && #[trigger] encoded_spec(fmt, level, orig) == Ok::<Seq<u8>, Seq<char>>(data@)
                ==> match r {
                Ok(Ok(v)) => v@ == cut(orig, limit),
                Ok(Err(_)) => false,
                Err(e) => fmt == ArchiveFormat::Zstd,
            },
{
    let d = match fmt {
        ArchiveFormat::Gz => gzip_decode(data, limit),
        ArchiveFormat::Bz2 => bzip2_decode(data, limit),
        ArchiveFormat::Xz => xz_decode(data, limit),
        ArchiveFormat::Zstd => zstd_decode(data, limit),
        _ => {
            return Err(unsupported_msg("非单文件格式"));
        },
    };
    proof {
        assert forall|orig: Seq<u8>, level: u8|
            is_single(fmt) && #[trigger] encoded_spec(fmt, level, orig) == Ok::<Seq<u8>, Seq<char>>(data@)
                implies match d {
                Ok(v) => v@ == cut(orig, limit),
                Err(f) => fmt == ArchiveFormat::Zstd && f.at_open,
            } by {
            match fmt {
                ArchiveFormat::Gz => {
                    assert(gzip_written(orig, data@));
                },
                ArchiveFormat::Bz2 => {
                    assert(bzip2_written(orig, data@));
                },
                ArchiveFormat::Xz => {
                    assert(xz_written(orig, data@));
                },
                _ => {
                    assert(zstd_written(orig, data@));
                },
            }
        }
    }
    match d {
        Ok(v) => Ok(Ok(v)),
        Err(f) => if f.at_open {
            Err(AppError::Io(f.message))
        } else {
            Ok(Err(f.message))
        },
    }
}

/// The one input of a single-stream archive: exactly one path is accepted.
pub fn single_input(paths: &Vec<String>) -> (r: AppResult<String>)
    ensures
        paths@.len() == 1 ==> (r matches Ok(p) && p@ == paths@[0]@),
        paths@.len() != 1 ==> (r matches Err(e) && is_archive_err(
            e,
            "单文件格式（gz/bz2/xz/zst）仅支持压缩单个文件，多文件请用 tar.*"@,
        )),
{
    if paths.len() != 1 {
        return Err(archive_msg("单文件格式（gz/bz2/xz/zst）仅支持压缩单个文件，多文件请用 tar.*"));
    }
    Ok(paths[0].clone())
}

/// A directory cannot be compressed as a single stream.
pub fn single_input_kind(is_dir: bool) -> (r: AppResult<()>)
    ensures
        r is Ok <==> !is_dir,
        is_dir ==> (r matches Err(e) && is_archive_err(
            e,
            "单文件格式不支持目录，请改用 tar.gz / tar.bz2 等组合格式"@,
        )),
{
    if is_dir {
        return Err(archive_msg("单文件格式不支持目录，请改用 tar.gz / tar.bz2 等组合格式"));
    }
    Ok(())
}

/// Compresses the contents `data` of the one input file into `dest`: the
/// stream to write there, and the summary (one entry; the size is that of
/// the input).
pub fn compress_single(data: &[u8], dest: &str, fmt: ArchiveFormat, level: u8) -> (r: AppResult<
    (Vec<u8>, ArchiveInfo),
>)
    requires
        level_ok(fmt, level),
    ensures
        !is_single(fmt) ==> (r matches Err(e) && is_unsupported_err(e, not_single_msg())),
        is_single(fmt) ==> match encoded_spec(fmt, level, data@) {
            Ok(b) => r matches Ok((v, info)) && v@ == b && info.path@ == dest@ && info.format@
                == as_str_spec(fmt) && info.entry_count == 1 && info.total_size == data@.len(),
            Err(m) => r matches Err(e) && is_io_err(e, m),
        },
{
    let v = encode_single(fmt, level, data)?;
    let info = ArchiveInfo {
        path: dest.to_owned(),
        format: fmt.as_str().to_owned(),
        entry_count: 1,
        total_size: data.len() as u64,
    };
    Ok((v, info))
}

/// The progress of a single-stream compression, which counts its one input
/// file: none of one done before the stream is written, one of one after.
pub fn compress_progress(written: bool) -> (p: (u64, u64))
    ensures
        p == (if written { (1u64, 1u64) } else { (0u64, 1u64) }),
{
    if written { (1, 1) } else { (0, 1) }
}

/// The progress of a single-stream extraction once its output is written,
/// as (bytes done, total bytes): the decompressed size, which is only known
/// then, is both what was done and the whole.
pub fn extract_progress(written: usize) -> (p: (u64, u64))
    ensures
        p.0 == written,
        p.1 == written,
{
    (written as u64, written as u64)
}

/// Decompresses a single-stream archive named `archive` (contents `data`)
/// into `dest`: the name of the file to write there (the archive's name
/// without its compression suffix), its contents, and the summary. What
/// `compress_single` made of some contents decompresses to those contents
/// (for zstd, unless the decoder could not be set up).
pub fn extract_single(archive: &str, data: &[u8], dest: &str, fmt: ArchiveFormat) -> (r: AppResult<
    (String, Vec<u8>, ExtractResult),
>)
    ensures
        !is_single(fmt) ==> (r matches Err(e) && is_unsupported_err(e, not_single_msg())),
        is_single(fmt) ==> match decoded_spec(fmt, data@, u64::MAX) {
            Ok(b) => r matches Ok((n, v, x)) && n@ == derived_name_spec(archive@) && v@ == b
                && x.extracted == 1 && x.dest@ == dest@,
            Err((_, m)) => r matches Err(e) && is_io_err(e, m),
        },
        forall|orig: Seq<u8>, level: u8|
            is_single(fmt) && orig.len() <= u64::MAX && #[trigger] encoded_spec(fmt, level, orig) == Ok::<
                Seq<u8>,
                Seq<char>,
            >(data@) ==> (fmt != ArchiveFormat::Zstd ==> r is Ok) && (r matches Ok((_, v, _)) ==> v@ == orig),
{
    let out = match decode_single(fmt, data, u64::MAX)? {
        Ok(v) => v,
        Err(m) => {
            return Err(AppError::Io(m));
        },
    };
    Ok((derived_name(archive), out, ExtractResult { extracted: 1, dest: dest.to_owned() }))
}

/// The method shown for a single-stream format.
pub open spec fn single_method_spec(fmt: ArchiveFormat) -> Seq<char> {
    match fmt {
        ArchiveFormat::Gz => "gzip"@,
        ArchiveFormat::Bz2 => "bzip2"@,
        ArchiveFormat::Xz => "xz"@,
        ArchiveFormat::Zstd => "zstd"@,
        _ => "?"@,
    }
}

/// Lists a single-stream archive of `len` bytes, modified at `mtime`: one
/// entry, named after the file it decompresses to, of unknown size.
pub fn list_single(archive: &str, fmt: ArchiveFormat, len: u64, mtime: Option<u64>) -> (r: Vec<
    EntryInfo,
>)
    ensures
        r@.len() == 1,
        r@[0].name@ == derived_name_spec(archive@),
        r@[0].size == 0,
        r@[0].compressed_size == Some(len),
        !r@[0].is_dir,
        r@[0].modified == mtime,
        r@[0].method matches Some(m) && m@ == single_method_spec(fmt),
{
    let method = match fmt {
        ArchiveFormat::Gz => "gzip",
        ArchiveFormat::Bz2 => "bzip2",
        ArchiveFormat::Xz => "xz",
        ArchiveFormat::Zstd => "zstd",
        _ => "?",
    };
    let e = EntryInfo {
        name: derived_name(archive),
        size: 0,
        compressed_size: Some(len),
        is_dir: false,
        modified: mtime,
        method: Some(method.to_owned()),
    };
    let mut v: Vec<EntryInfo> = Vec::new();
    v.push(e);
    v
}

/// Previews a single-stream archive: its first `max_bytes` decompressed
/// bytes (one more is read to tell whether there were more).
pub fn preview_single(archive: &str, fmt: ArchiveFormat, data: &[u8], max_bytes: usize) -> (r:
    AppResult<PreviewData>)
    requires
        max_bytes < u64::MAX,
    ensures
        !is_single(fmt) ==> (r matches Err(e) && is_unsupported_err(e, not_single_msg())),
        is_single(fmt) ==> match decoded_spec(fmt, data@, (max_bytes + 1) as u64) {
            Ok(b) => r matches Ok(p) && ({
                let shown = b.take(if b.len() < max_bytes { b.len() as int } else { max_bytes as int });
                preview_of(
                    p,
                    derived_name_spec(archive@),
                    if single_is_binary(shown) {
                        mime_for_spec(derived_name_spec(archive@))
                    } else {
                        "text/plain"@
                    },
                    shown,
                    b.len() > max_bytes,
                    single_is_binary(shown),
                )
            }),
            Err((_, m)) => r matches Err(e) && is_io_err(e, m),
        },
{
    let limit: u64 = max_bytes as u64 + 1;
    let buf = match decode_single(fmt, data, limit)? {
        Ok(v) => v,
        Err(m) => {
            return Err(AppError::Io(m));
        },
    };
    let name = derived_name(archive);
    Ok(preview_stream_data(buf.as_slice(), name.as_str(), max_bytes))
}

/// Checks a single-stream archive by decompressing all of it: one entry,
/// passing unless reading failed, with the error's text.
pub fn test_single(archive: &str, fmt: ArchiveFormat, data: &[u8]) -> (r: AppResult<TestResult>)
    ensures
        !is_single(fmt) ==> (r matches Err(e) && is_unsupported_err(e, not_single_msg())),
        is_single(fmt) ==> match decoded_spec(fmt, data@, u64::MAX) {
            Ok(_) => r matches Ok(t) && t.ok && t.entries@.len() == 1 && t.entries@[0].ok
                && t.entries@[0].name@ == derived_name_spec(archive@) && t.entries@[0].error is None,
            Err((true, m)) => r matches Err(e) && is_io_err(e, m),
            Err((false, m)) => r matches Ok(t) && !t.ok && t.entries@.len() == 1 && !t.entries@[0].ok
                && t.entries@[0].name@ == derived_name_spec(archive@) && (t.entries@[0].error
                matches Some(x) && x@ == m),
        },
{
    let name = derived_name(archive);
    let outcome = decode_single(fmt, data, u64::MAX)?;
    let mut entries: Vec<crate::model::EntryTestStatus> = Vec::new();
    match outcome {
        Ok(_) => {
            entries.push(crate::model::EntryTestStatus { name, ok: true, error: None });
            Ok(TestResult { ok: true, entries })
        },
        Err(m) => {
            entries.push(crate::model::EntryTestStatus { name, ok: false, error: Some(m) });
            Ok(TestResult { ok: false, entries })
        },
    }
}

} // verus!
