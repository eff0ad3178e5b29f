use arkbox::edit::{
    added_file_missing, added_file_unnamed, addable_format, edit_file_name, edit_format, editable_format,
    entry_not_extracted, nothing_to_repack, rebuild_dir_name, rename_source_missing, sanitize_name, EmptyRepack,
};
use arkbox::error::AppError;
use arkbox::model::ArchiveFormat;
use arkbox::paths::{apple_double_entry_name, derived_name, sanitize, strip_apple_double};

#[test]
fn sanitize_drops_traversal_pieces() {
    assert_eq!(sanitize("/etc/../passwd"), "etc/passwd");
    assert_eq!(sanitize("a//./b/"), "a/b");
    assert_eq!(sanitize("../../.."), "");
    assert_eq!(sanitize_name("x/./y"), "x/y");
}

#[test]
fn apple_double_names() {
    assert_eq!(apple_double_entry_name("a.txt"), "__MACOSX/._a.txt");
    assert_eq!(apple_double_entry_name("sub/b.txt"), "__MACOSX/sub._b.txt");
    assert_eq!(strip_apple_double("__MACOSX/._a.txt").as_deref(), Some("a.txt"));
    assert_eq!(strip_apple_double("__MACOSX/sub/._b.txt").as_deref(), Some("sub/b.txt"));
    assert_eq!(strip_apple_double("__MACOSX/sub/b.txt"), None);
    assert_eq!(strip_apple_double("sub/._b.txt"), None);
    assert_eq!(strip_apple_double("__MACOSX/b.txt"), None);
}

#[test]
fn top_level_metadata_entry_leads_back() {
    for rel in ["a.txt", "._x", "noext", ""] {
        let ad = apple_double_entry_name(rel);
        assert_eq!(strip_apple_double(&ad).as_deref(), Some(rel));
    }
}

#[test]
fn names_of_decompressed_streams() {
    assert_eq!(derived_name("/x/report.txt.GZ"), "report.txt");
    assert_eq!(derived_name("a.tar.bz2"), "a.tar");
    assert_eq!(derived_name("b.xz"), "b");
    assert_eq!(derived_name("c.zst"), "c");
    assert_eq!(derived_name("plain"), "plain");
    assert_eq!(derived_name("/"), "file");
}

#[test]
fn edit_rules() {
    assert_eq!(edit_format("a.zip").unwrap(), ArchiveFormat::Zip);
    match edit_format("a.doc") {
        Err(AppError::UnsupportedFormat(m)) => assert_eq!(m, "无法识别: a.doc"),
        other => panic!("unexpected {other:?}"),
    }
    match editable_format("a.rar") {
        Err(AppError::UnsupportedFormat(m)) => assert_eq!(m, "RAR 为只读格式，不支持增删改"),
        other => panic!("unexpected {other:?}"),
    }
    assert_eq!(editable_format("a.gz").unwrap(), ArchiveFormat::Gz);
    match addable_format("a.gz") {
        Err(AppError::UnsupportedFormat(m)) => {
            assert_eq!(m, "gz 为单文件流格式，不支持添加多个条目")
        }
        other => panic!("unexpected {other:?}"),
    }
    assert_eq!(addable_format("a.tar.gz").unwrap(), ArchiveFormat::TarGz);
    assert_eq!(rebuild_dir_name("abc"), "abc-rebuild");
    assert_eq!(edit_file_name("dir/notes.txt"), "notes.txt");
    assert_eq!(edit_file_name("dir/"), "edited.bin");
    assert_eq!(edit_file_name(".."), "");
}

fn archive_text(e: AppError) -> String {
    match e {
        AppError::Archive(m) => m,
        other => panic!("unexpected {other:?}"),
    }
}

#[test]
fn edit_errors() {
    assert_eq!(archive_text(entry_not_extracted("a/b")), "条目未解压出可编辑文件: a/b");
    assert_eq!(archive_text(nothing_to_repack(EmptyRepack::AfterEdit)), "重打包时未找到任何条目");
    assert_eq!(archive_text(nothing_to_repack(EmptyRepack::AfterDelete)), "删除后压缩包已无条目");
    assert_eq!(archive_text(nothing_to_repack(EmptyRepack::AfterAdd)), "添加后压缩包已无条目");
    assert_eq!(archive_text(rename_source_missing("x")), "条目不存在，无法重命名: x");
    assert_eq!(archive_text(added_file_missing("/f")), "待添加文件不存在: /f");
    assert_eq!(archive_text(added_file_unnamed("/")), "无法解析文件名: /");
}
