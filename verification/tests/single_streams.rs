use arkbox::error::AppError;
use arkbox::model::ArchiveFormat;
use arkbox::single::{
    compress_progress, compress_single, decode_single, extract_progress, encode_single, extract_single, list_single, preview_single,
    single_input, single_input_kind, test_single,
};

const PAYLOAD: &[u8] = b"single file payload 12345";

#[test]
fn every_codec_roundtrips() {
    for (fmt, name) in [
        (ArchiveFormat::Gz, "out.gz"),
        (ArchiveFormat::Bz2, "out.bz2"),
        (ArchiveFormat::Xz, "out.xz"),
        (ArchiveFormat::Zstd, "out.zst"),
    ] {
        let (stream, info) = compress_single(PAYLOAD, name, fmt, 6).unwrap();
        assert_ne!(stream.as_slice(), PAYLOAD);
        assert_eq!(info.entry_count, 1);
        assert_eq!(info.total_size, PAYLOAD.len() as u64);
        assert_eq!(info.format, fmt.as_str());
        assert_eq!(info.path, name);
        let (file, data, x) = extract_single(name, &stream, "/dest", fmt).unwrap();
        assert_eq!(file, "out");
        assert_eq!(data, PAYLOAD);
        assert_eq!(x.extracted, 1);
        assert_eq!(x.dest, "/dest");
        let t = test_single(name, fmt, &stream).unwrap();
        assert!(t.ok);
        assert_eq!(t.entries.len(), 1);
        assert_eq!(t.entries[0].name, "out");
    }
}

#[test]
fn gzip_stream_has_its_magic() {
    let v = encode_single(ArchiveFormat::Gz, 9, b"abc").unwrap();
    assert_eq!(&v[0..2], &[0x1f, 0x8b]);
    let z = encode_single(ArchiveFormat::Zstd, 0, b"abc").unwrap();
    assert_eq!(&z[0..4], &[0x28, 0xb5, 0x2f, 0xfd]);
}

#[test]
fn non_stream_formats_are_refused() {
    match encode_single(ArchiveFormat::Zip, 6, b"x") {
        Err(AppError::UnsupportedFormat(m)) => assert_eq!(m, "非单文件格式"),
        other => panic!("unexpected {other:?}"),
    }
    match decode_single(ArchiveFormat::TarGz, b"x", 10) {
        Err(AppError::UnsupportedFormat(m)) => assert_eq!(m, "非单文件格式"),
        other => panic!("unexpected {other:?}"),
    }
}

#[test]
fn corrupt_streams_fail_the_check() {
    let t = test_single("bad.gz", ArchiveFormat::Gz, b"not gzip at all").unwrap();
    assert!(!t.ok);
    assert!(!t.entries[0].ok);
    assert!(t.entries[0].error.is_some());
    match extract_single("bad.xz", b"garbage", "/d", ArchiveFormat::Xz) {
        Err(AppError::Io(_)) => {}
        other => panic!("unexpected {other:?}"),
    }
}

#[test]
fn preview_reads_one_byte_past_the_limit() {
    let (stream, _) = compress_single(b"hello world", "h.txt.gz", ArchiveFormat::Gz, 6).unwrap();
    let p = preview_single("h.txt.gz", ArchiveFormat::Gz, &stream, 5).unwrap();
    assert_eq!(p.name, "h.txt");
    assert!(p.truncated);
    assert_eq!(p.text.as_deref(), Some("hello"));
    let q = preview_single("h.txt.gz", ArchiveFormat::Gz, &stream, 11).unwrap();
    assert!(!q.truncated);
    let limited = decode_single(ArchiveFormat::Gz, &stream, 3).unwrap().unwrap();
    assert_eq!(limited, b"hel");
}

#[test]
fn single_inputs() {
    assert_eq!(single_input(&vec!["/a".to_string()]).unwrap(), "/a");
    match single_input(&vec![]) {
        Err(AppError::Archive(m)) => {
            assert_eq!(m, "单文件格式（gz/bz2/xz/zst）仅支持压缩单个文件，多文件请用 tar.*")
        }
        other => panic!("unexpected {other:?}"),
    }
    assert!(single_input_kind(false).is_ok());
    assert!(single_input_kind(true).is_err());
}

#[test]
fn listing_a_stream() {
    let v = list_single("/x/Data.CSV.BZ2", ArchiveFormat::Bz2, 77, Some(5));
    assert_eq!(v.len(), 1);
    assert_eq!(v[0].name, "Data.CSV");
    assert_eq!(v[0].size, 0);
    assert_eq!(v[0].compressed_size, Some(77));
    assert_eq!(v[0].modified, Some(5));
    assert_eq!(v[0].method.as_deref(), Some("bzip2"));
}

#[test]
fn extraction_progress_is_the_decompressed_size() {
    assert_eq!(extract_progress(0), (0, 0));
    assert_eq!(extract_progress(4096), (4096, 4096));
}

#[test]
fn gzip_takes_its_highest_level() {
    let (stream, _) = compress_single(b"level ten", "t.gz", ArchiveFormat::Gz, 10).unwrap();
    let (_, out, _) = extract_single("t.gz", &stream, "/out", ArchiveFormat::Gz).unwrap();
    assert_eq!(out, b"level ten".to_vec());
    let (capped, _) = compress_single(b"level ten", "t.gz", ArchiveFormat::Gz, 200).unwrap();
    assert_eq!(capped, stream);
    assert_eq!(compress_progress(false), (0, 1));
    assert_eq!(compress_progress(true), (1, 1));
}
