//! RAR reading against a real archive: `version.rar`, the single-entry
//! sample that ships with the unrar crate's own test data (MIT licence),
//! read by UnRAR and handed to the library as plain headers.

use std::io::Write;

use arkbox::rar::{list_rar, normalize, test_rar, RarCode, RarFailure, RarHeader, RarTestItem};
use unrar::error::{Code, UnrarError};
use unrar::Archive;

const VERSION_RAR: [u8; 87] = [
    0x52, 0x61, 0x72, 0x21, 0x1a, 0x07, 0x00, 0xcf, 0x90, 0x73, 0x00, 0x00, 0x0d, 0x00, 0x00, 0x00,
    0x00, 0x00, 0x00, 0x00, 0x0f, 0x0c, 0x74, 0x20, 0x80, 0x27, 0x00, 0x15, 0x00, 0x00, 0x00, 0x0b,
    0x00, 0x00, 0x00, 0x03, 0x45, 0xf3, 0x7d, 0xc6, 0xa4, 0x8a, 0x07, 0x47, 0x1d, 0x33, 0x07, 0x00,
    0xa4, 0x81, 0x00, 0x00, 0x56, 0x45, 0x52, 0x53, 0x49, 0x4f, 0x4e, 0x0c, 0x00, 0x8f, 0xec, 0x8a,
    0x45, 0xcc, 0x23, 0xc8, 0x48, 0x08, 0x83, 0x62, 0xfe, 0x5f, 0xdd, 0x5c, 0x53, 0x88, 0xf0, 0x72,
    0xc4, 0x3d, 0x7b, 0x00, 0x40, 0x07, 0x00,
];

fn sample() -> tempfile::NamedTempFile {
    let mut f = tempfile::Builder::new().suffix(".rar").tempfile().expect("temp file");
    f.write_all(&VERSION_RAR).expect("write sample");
    f.flush().expect("flush sample");
    f
}

fn failure(e: UnrarError) -> RarFailure {
    let code = match e.code {
        Code::MissingPassword => RarCode::MissingPassword,
        Code::BadPassword => RarCode::BadPassword,
        Code::BadData => RarCode::BadData,
        Code::BadArchive => RarCode::BadArchive,
        Code::UnknownFormat => RarCode::UnknownFormat,
        Code::EOpen => RarCode::EOpen,
        _ => RarCode::Other,
    };
    RarFailure { code, detail: e.to_string() }
}

#[test]
fn rar_list_and_metadata() {
    let file = sample();
    let items: Vec<Result<RarHeader, RarFailure>> = Archive::new(file.path())
        .open_for_listing()
        .expect("应能列出 RAR 条目")
        .map(|item| {
            item.map(|h| RarHeader {
                filename: h.filename.to_string_lossy().to_string(),
                unpacked_size: h.unpacked_size,
                is_dir: h.is_directory(),
                file_time: h.file_time,
                method: h.method,
            })
            .map_err(failure)
        })
        .collect();
    let entries = list_rar(&items, None).expect("应能列出 RAR 条目");
    assert_eq!(entries.len(), 1);
    let e = &entries[0];
    assert_eq!(e.name, "VERSION");
    assert_eq!(e.size, 11);
    assert!(!e.is_dir);
    assert_eq!(e.compressed_size, None);
    let m = e.modified.expect("应能读出修改时间");
    assert!((1_400_000_000..1_600_000_000).contains(&m), "时间戳异常: {m}");
}

#[test]
fn rar_integrity_test() {
    let file = sample();
    let mut cursor = Archive::new(file.path()).open_for_processing().expect("应能校验");
    let mut met: Vec<RarTestItem> = Vec::new();
    loop {
        let view = match cursor.read_header().expect("应能校验") {
            Some(v) => v,
            None => break,
        };
        let name = normalize(&view.entry().filename.to_string_lossy());
        let is_dir = view.entry().is_directory();
        let next = if is_dir { view.skip() } else { view.test() };
        match next {
            Ok(c) => {
                cursor = c;
                met.push(RarTestItem { name, is_dir, failure: None });
            }
            Err(e) => {
                met.push(RarTestItem { name, is_dir, failure: Some(failure(e)) });
                break;
            }
        }
    }
    let t = test_rar(&met, None);
    assert!(t.ok);
    assert_eq!(t.entries.len(), 1);
    assert!(t.entries[0].ok);
}
