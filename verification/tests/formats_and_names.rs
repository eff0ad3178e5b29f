use arkbox::archive::{
    clamp_level, compress_format, detect_format, dir_mode, engine_of, file_mode, is_symlink_mode,
    permission_bits, should_exclude, Engine,
};
use arkbox::error::AppError;
use arkbox::model::ArchiveFormat;

#[test]
fn from_ext_recognises_every_family() {
    assert_eq!(ArchiveFormat::from_ext("a.ZIP"), Some(ArchiveFormat::Zip));
    assert_eq!(ArchiveFormat::from_ext("a.zipx"), Some(ArchiveFormat::Zip));
    assert_eq!(ArchiveFormat::from_ext("a.7z"), Some(ArchiveFormat::SevenZip));
    assert_eq!(ArchiveFormat::from_ext("a.tar.gz"), Some(ArchiveFormat::TarGz));
    assert_eq!(ArchiveFormat::from_ext("a.tgz"), Some(ArchiveFormat::TarGz));
    assert_eq!(ArchiveFormat::from_ext("a.tbz2"), Some(ArchiveFormat::TarBz));
    assert_eq!(ArchiveFormat::from_ext("a.tar.xz"), Some(ArchiveFormat::TarXz));
    assert_eq!(ArchiveFormat::from_ext("a.tzst"), Some(ArchiveFormat::TarZstd));
    assert_eq!(ArchiveFormat::from_ext("a.gz"), Some(ArchiveFormat::Gz));
    assert_eq!(ArchiveFormat::from_ext("a.bz2"), Some(ArchiveFormat::Bz2));
    assert_eq!(ArchiveFormat::from_ext("a.xz"), Some(ArchiveFormat::Xz));
    assert_eq!(ArchiveFormat::from_ext("a.zst"), Some(ArchiveFormat::Zstd));
    assert_eq!(ArchiveFormat::from_ext("a.RAR"), Some(ArchiveFormat::Rar));
    assert_eq!(ArchiveFormat::from_ext("a.part1.rar"), Some(ArchiveFormat::Rar));
    assert_eq!(ArchiveFormat::from_ext("a.r01"), Some(ArchiveFormat::Rar));
    assert_eq!(ArchiveFormat::from_ext("a.001"), Some(ArchiveFormat::Rar));
    assert_eq!(ArchiveFormat::from_ext("report.2024"), None);
    assert_eq!(ArchiveFormat::from_ext("notes.txt"), None);
    assert_eq!(ArchiveFormat::from_ext("a.tar"), Some(ArchiveFormat::Tar));
    assert_eq!(ArchiveFormat::from_ext("A.TAR"), Some(ArchiveFormat::Tar));
    assert_eq!(ArchiveFormat::from_ext("a.tar.gz"), Some(ArchiveFormat::TarGz));
}

#[test]
fn rar_family_names() {
    assert_eq!(ArchiveFormat::from_ext("a.rar"), Some(ArchiveFormat::Rar));
    assert_eq!(ArchiveFormat::from_ext("a.part1.rar"), Some(ArchiveFormat::Rar));
    assert_eq!(ArchiveFormat::from_ext("a.r01"), Some(ArchiveFormat::Rar));
    assert_eq!(ArchiveFormat::from_ext("a.001"), Some(ArchiveFormat::Rar));
    assert_eq!(ArchiveFormat::from_ext("report.2024"), None);
    assert_eq!(ArchiveFormat::from_ext("a.r1"), None);
    assert_eq!(ArchiveFormat::from_ext("r01"), None);
    assert_eq!(ArchiveFormat::from_ext("123"), None);
}

#[test]
fn format_names_roundtrip() {
    let all = [
        ArchiveFormat::Zip,
        ArchiveFormat::SevenZip,
        ArchiveFormat::Tar,
        ArchiveFormat::TarGz,
        ArchiveFormat::TarBz,
        ArchiveFormat::TarXz,
        ArchiveFormat::TarZstd,
        ArchiveFormat::Gz,
        ArchiveFormat::Bz2,
        ArchiveFormat::Xz,
        ArchiveFormat::Zstd,
        ArchiveFormat::Rar,
    ];
    for f in all {
        assert_eq!(ArchiveFormat::from_str(f.as_str()), Some(f));
    }
    assert_eq!(ArchiveFormat::SevenZip.as_str(), "7z");
    assert_eq!(ArchiveFormat::TarZstd.as_str(), "tar.zst");
    assert_eq!(ArchiveFormat::from_str("ZIP"), Some(ArchiveFormat::Zip));
    assert_eq!(ArchiveFormat::from_str("tar.gz"), Some(ArchiveFormat::TarGz));
    assert_eq!(ArchiveFormat::from_str("TAR"), Some(ArchiveFormat::Tar));
    assert_eq!(ArchiveFormat::Tar.as_str(), "tar");
    assert_eq!(ArchiveFormat::from_str("cab"), None);
}

#[test]
fn format_name_with_extension_is_recognised_again() {
    for f in [ArchiveFormat::Zip, ArchiveFormat::Gz, ArchiveFormat::Rar, ArchiveFormat::SevenZip, ArchiveFormat::Tar] {
        let name = format!("archive.{}", f.as_str());
        assert_eq!(ArchiveFormat::from_ext(&name), Some(f));
    }
}

#[test]
fn detect_format_names_the_file() {
    assert_eq!(detect_format("x.tar.xz").unwrap(), ArchiveFormat::TarXz);
    match detect_format("x.doc") {
        Err(AppError::UnsupportedFormat(m)) => assert_eq!(m, "无法识别压缩格式: x.doc"),
        other => panic!("unexpected {other:?}"),
    }
}

#[test]
fn rar_is_never_written() {
    match compress_format("rar") {
        Err(AppError::UnsupportedFormat(m)) => assert!(m.contains("无法创建 RAR")),
        other => panic!("unexpected {other:?}"),
    }
    match compress_format("lha") {
        Err(AppError::UnsupportedFormat(m)) => assert_eq!(m, "不支持的格式: lha"),
        other => panic!("unexpected {other:?}"),
    }
    assert_eq!(compress_format("targz").unwrap(), ArchiveFormat::TarGz);
    assert_eq!(compress_format("tar").unwrap(), ArchiveFormat::Tar);
}

#[test]
fn engines_by_format() {
    assert_eq!(engine_of(ArchiveFormat::Zip), Engine::Zip);
    assert_eq!(engine_of(ArchiveFormat::SevenZip), Engine::SevenZip);
    assert_eq!(engine_of(ArchiveFormat::Xz), Engine::Single);
    assert_eq!(engine_of(ArchiveFormat::TarXz), Engine::Tar);
    assert_eq!(engine_of(ArchiveFormat::Tar), Engine::Tar);
    assert_eq!(engine_of(ArchiveFormat::Rar), Engine::Rar);
}

#[test]
fn exclusion_rules() {
    let ex = vec!["node_modules/".to_string(), " .DS_Store ".to_string(), "".to_string()];
    assert!(should_exclude("a/.hidden", &ex, false));
    assert!(!should_exclude("a/.hidden", &[], true));
    assert!(should_exclude("proj/.ds_store", &ex, true));
    assert!(should_exclude("node_modules", &ex, true));
    assert!(should_exclude("node_modules/x.js", &ex, true));
    assert!(should_exclude("node_modules/deep/y.js", &ex, true));
    assert!(!should_exclude("src/node_modules/x.js", &ex, true));
    assert!(!should_exclude("node_modules_x/y.js", &ex, true));
    assert!(!should_exclude("x.js", &vec!["/".to_string()], true));
    let ex2 = vec!["node_modules".to_string()];
    assert!(should_exclude("node_modules", &ex2, true));
    assert!(should_exclude("NODE_MODULES/x.js", &ex2, true));
    assert!(!should_exclude("src/node_modules_x", &ex2, true));
    assert!(should_exclude("src/x.LOG", &vec![".log".to_string()], true));
}

#[test]
fn levels_and_modes() {
    assert_eq!(clamp_level(0), 0);
    assert_eq!(clamp_level(6), 6);
    assert_eq!(clamp_level(200), 9);
    assert_eq!(file_mode(0o100755), 0o100755);
    assert_eq!(file_mode(0o40700), 0o100700);
    assert_eq!(dir_mode(0o100644), 0o040644);
    assert!(is_symlink_mode(0o120777));
    assert!(!is_symlink_mode(0o100644));
    assert_eq!(permission_bits(0o104755), 0o4755);
}
