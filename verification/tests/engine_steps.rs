use arkbox::engines::{
    extract_plan, total_overflow, zip_extract_plan, StepRule,
    base_opts, extract_total, is_added, is_wanted, list_zip, missing_input, no_inputs, rar_extract_step,
    record_test, sevenz_encryption, sevenz_entry, sevenz_extract_step, sevenz_preview_step, tar_codec, tar_entry,
    tar_extract_step, tar_preview_step, tar_readable, unreadable_entry_name, zip_add_plan, zip_extract_step,
    zip_extract_total, zip_preview_step, zip_tests_entry, ExtractStep, FsKind, PreviewStep, TarCodec, ZipAdd,
    ZipExtractStep, ZipListItem, ZipMeta,
};
use arkbox::error::AppError;
use arkbox::model::{ArchiveFormat, EntryInfo};
use arkbox::rar::new_test_result;

fn entry(name: &str, size: u64, is_dir: bool) -> EntryInfo {
    EntryInfo { name: name.to_string(), size, compressed_size: None, is_dir, modified: None, method: None }
}

fn is_write(s: &ExtractStep, p: &str) -> bool {
    matches!(s, ExtractStep::Write(q) if q == p)
}

fn is_dir_step(s: &ExtractStep, p: &str) -> bool {
    matches!(s, ExtractStep::MakeDir(q) if q == p)
}

#[test]
fn chosen_entries() {
    let chosen = vec!["a/b.txt".to_string()];
    assert!(is_wanted("a/b.txt", Some(&chosen)));
    assert!(!is_wanted("a/c.txt", Some(&chosen)));
    assert!(is_wanted("anything", None));
}

#[test]
fn totals_count_chosen_files_only() {
    let listing = vec![entry("d", 100, true), entry("d/a", 5, false), entry("d/b", 7, false)];
    assert_eq!(extract_total(&listing, None), Some(12));
    let chosen = vec!["d/b".to_string(), "d".to_string()];
    assert_eq!(extract_total(&listing, Some(&chosen)), Some(7));
    let huge = vec![entry("x", u64::MAX, false), entry("y", 1, false)];
    assert_eq!(extract_total(&huge, None), None);
}

#[test]
fn extraction_steps_by_engine() {
    let chosen = vec!["keep.txt".to_string()];
    assert!(is_write(&rar_extract_step("../evil/keep.txt", false, None), "evil/keep.txt"));
    assert!(matches!(rar_extract_step("bad\0name", false, None), ExtractStep::Skip));
    assert!(matches!(rar_extract_step("other.txt", false, Some(&chosen)), ExtractStep::Skip));
    assert!(is_dir_step(&rar_extract_step("dir/", true, None), "dir"));
    assert!(is_write(&tar_extract_step("/abs/x", false, None), "abs/x"));
    assert!(matches!(tar_extract_step("dir", true, Some(&chosen)), ExtractStep::Skip));
    assert!(is_dir_step(&sevenz_extract_step("dir", true, Some(&chosen)), "dir"));
    assert!(matches!(sevenz_extract_step("other", false, Some(&chosen)), ExtractStep::Skip));
    assert!(is_write(&sevenz_extract_step("keep.txt", false, Some(&chosen)), "keep.txt"));
}

fn meta(name: &str, is_dir: bool, size: u64, mode: Option<u32>) -> ZipMeta {
    ZipMeta { name: name.to_string(), is_dir, size, unix_mode: mode }
}

#[test]
fn zip_extraction() {
    let metas = vec![
        meta("__MACOSX/._a.txt", false, 1000, None),
        meta("a.txt", false, 5, Some(0o100600)),
        meta("sub/", true, 0, None),
        meta("link", false, 3, Some(0o120777)),
    ];
    assert_eq!(zip_extract_total(&metas, None), Some(8));
    let chosen = vec!["a.txt".to_string()];
    assert_eq!(zip_extract_total(&metas, Some(&chosen)), Some(5));
    assert!(matches!(zip_extract_step(&metas[0], None), ZipExtractStep::Skip));
    assert!(matches!(zip_extract_step(&metas[1], None), ZipExtractStep::File(ref p, 0o600) if p == "a.txt"));
    assert!(matches!(zip_extract_step(&metas[2], None), ZipExtractStep::MakeDir(ref p) if p == "sub"));
    assert!(matches!(zip_extract_step(&metas[3], None), ZipExtractStep::Symlink(ref p) if p == "link"));
    let no_mode = meta("../x", false, 1, None);
    assert!(matches!(zip_extract_step(&no_mode, None), ZipExtractStep::File(ref p, 0o644) if p == "x"));
    assert!(matches!(zip_extract_step(&metas[1], Some(&vec![])), ZipExtractStep::Skip));
}

#[test]
fn zip_listing_and_checks() {
    let items = vec![
        ZipListItem {
            name: "__MACOSX/._a".to_string(),
            size: 1,
            compressed_size: 1,
            is_dir: false,
            method: "Stored".to_string(),
        },
        ZipListItem { name: "a".to_string(), size: 10, compressed_size: 4, is_dir: false, method: "Deflated".to_string() },
    ];
    let v = list_zip(&items);
    assert_eq!(v.len(), 1);
    assert_eq!(v[0].name, "a");
    assert_eq!(v[0].compressed_size, Some(4));
    assert_eq!(v[0].method.as_deref(), Some("Deflated"));
    assert!(zip_tests_entry("a.txt"));
    assert!(!zip_tests_entry("dir/"));
}

#[test]
fn check_reports() {
    let mut t = new_test_result();
    record_test(&mut t, "a".to_string(), None);
    assert!(t.ok);
    record_test(&mut t, unreadable_entry_name(), Some("bad header".to_string()));
    assert!(!t.ok);
    record_test(&mut t, "c".to_string(), None);
    assert!(!t.ok);
    assert_eq!(t.entries.len(), 3);
    assert_eq!(t.entries[1].name, "<无法读取条目>");
    assert_eq!(t.entries[1].error.as_deref(), Some("bad header"));
    assert!(t.entries[2].ok);
}

#[test]
fn engine_preview_steps() {
    assert!(matches!(zip_preview_step("a", "b", false), PreviewStep::Skip));
    assert!(matches!(zip_preview_step("a", "a", false), PreviewStep::Read));
    match zip_preview_step("a/", "a/", true) {
        PreviewStep::Fail(AppError::Archive(m)) => assert_eq!(m, "该条目是目录，无法预览"),
        _ => panic!("directories are refused"),
    }
    match sevenz_preview_step("d", "d", true) {
        PreviewStep::Fail(AppError::Archive(m)) => assert_eq!(m, "Other(\"该条目是目录，无法预览\")"),
        _ => panic!("directories are refused"),
    }
    assert!(matches!(tar_preview_step("d", "d"), PreviewStep::Read));
    assert!(matches!(tar_preview_step("d", "e"), PreviewStep::Skip));
}

#[test]
fn listed_entries() {
    let t = tar_entry("x".to_string(), None, false, Some(9), ArchiveFormat::TarXz);
    assert_eq!(t.size, 0);
    assert_eq!(t.modified, Some(9));
    assert_eq!(t.method.as_deref(), Some("tar.xz"));
    let u = tar_entry("y".to_string(), Some(3), true, None, ArchiveFormat::TarGz);
    assert_eq!(u.modified, Some(0));
    let s = sevenz_entry("z".to_string(), 4, false);
    assert_eq!(s.method.as_deref(), Some("7z"));
    assert_eq!(s.compressed_size, None);
}

#[test]
fn writer_settings() {
    let o = base_opts(12, Some("pw"));
    assert_eq!(o.level, 9);
    assert_eq!(o.aes_password.as_deref(), Some("pw"));
    assert_eq!(base_opts(3, Some("")).aes_password, None);
    assert_eq!(base_opts(3, None).level, 3);
    assert_eq!(tar_codec(ArchiveFormat::TarGz, 12).unwrap(), TarCodec::Gz(9));
    assert_eq!(tar_codec(ArchiveFormat::Tar, 5).unwrap(), TarCodec::Plain);
    assert!(tar_readable(ArchiveFormat::Tar).is_ok());
    assert_eq!(tar_codec(ArchiveFormat::TarXz, 1).unwrap(), TarCodec::Xz(6));
    assert_eq!(tar_codec(ArchiveFormat::TarZstd, 30).unwrap(), TarCodec::Zstd(22));
    match tar_codec(ArchiveFormat::Zip, 1) {
        Err(AppError::UnsupportedFormat(m)) => assert_eq!(m, "非 tar 格式"),
        other => panic!("unexpected {other:?}"),
    }
    assert!(tar_readable(ArchiveFormat::TarBz).is_ok());
    match tar_readable(ArchiveFormat::SevenZip) {
        Err(AppError::UnsupportedFormat(m)) => assert_eq!(m, "tar 不支持的格式: SevenZip"),
        other => panic!("unexpected {other:?}"),
    }
    assert_eq!(sevenz_encryption(Some("k")), Some(("k".to_string(), 19)));
    assert_eq!(sevenz_encryption(Some("")), None);
}

#[test]
fn inputs_added_to_an_archive() {
    let ex = vec!["node_modules".to_string()];
    assert!(!is_added("", &ex, true));
    assert!(!is_added("p/.git", &ex, false));
    assert!(is_added("p/.git", &ex, true));
    assert!(!is_added("node_modules/a.js", &ex, true));
    assert!(matches!(zip_add_plan("p", FsKind::Dir, 0o40755, &ex, true), ZipAdd::Dir(ref n, 0o40755) if n == "p/"));
    assert!(matches!(zip_add_plan("f", FsKind::File, 0o100640, &ex, true), ZipAdd::File(ref n, 0o100640) if n == "f"));
    assert!(matches!(zip_add_plan("l", FsKind::Symlink, 0, &ex, true), ZipAdd::Symlink(ref n, 0o777) if n == "l"));
    assert!(matches!(zip_add_plan("node_modules", FsKind::Dir, 0, &ex, true), ZipAdd::Skip));
    match no_inputs() {
        AppError::Archive(m) => assert_eq!(m, "未提供任何待压缩路径"),
        other => panic!("unexpected {other:?}"),
    }
    match missing_input("/gone") {
        AppError::Archive(m) => assert_eq!(m, "路径不存在: /gone"),
        other => panic!("unexpected {other:?}"),
    }
}

#[test]
fn extraction_plan_counts_written_files() {
    let listing = vec![entry("d/", 0, true), entry("d/a.txt", 10, false), entry("b.txt", 5, false), entry("c.txt", 7, false)];
    let chosen = vec!["d/a.txt".to_string(), "c.txt".to_string(), "d/".to_string()];
    let p = extract_plan(&listing, Some(&chosen), StepRule::Tar).unwrap();
    assert_eq!(p.total, 17);
    assert_eq!(p.extracted, 2);
    assert!(is_dir_step(&p.steps[0], "d"));
    assert!(is_write(&p.steps[1], "d/a.txt"));
    assert!(matches!(p.steps[2], ExtractStep::Skip));
    assert_eq!(p.reports, vec![None, Some((10, 17)), None, Some((17, 17))]);
    let all = extract_plan(&listing, None, StepRule::SevenZip).unwrap();
    assert_eq!(all.extracted, 3);
    assert_eq!(all.reports[3], Some((22, 22)));
    let huge = vec![entry("a", u64::MAX, false), entry("b", 1, false)];
    assert!(extract_plan(&huge, None, StepRule::Rar).is_none());
    match total_overflow() {
        AppError::Archive(m) => assert_eq!(m, "解压总量超出 64 位范围"),
        other => panic!("unexpected {other:?}"),
    }
}

#[test]
fn zip_plan_skips_metadata_and_counts_links() {
    let metas = vec![
        meta("__MACOSX/._a.txt", false, 4, None),
        meta("sub/", true, 0, None),
        meta("a.txt", false, 3, Some(0o100640)),
        meta("l", false, 6, Some(0o120777)),
    ];
    let p = zip_extract_plan(&metas, None).unwrap();
    assert_eq!(p.total, 9);
    assert_eq!(p.extracted, 2);
    assert!(matches!(p.steps[0], ZipExtractStep::Skip));
    assert!(matches!(&p.steps[1], ZipExtractStep::MakeDir(q) if q == "sub"));
    assert!(matches!(&p.steps[2], ZipExtractStep::File(q, 0o640) if q == "a.txt"));
    assert!(matches!(&p.steps[3], ZipExtractStep::Symlink(q) if q == "l"));
    assert_eq!(p.reports, vec![None, None, Some((3, 9)), Some((9, 9))]);
}
