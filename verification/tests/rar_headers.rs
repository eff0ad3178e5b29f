use arkbox::error::AppError;
use arkbox::rar::{
    first_volume, resolve_first_part, days_from_civil, dos_to_unix, list_rar, map_err, method_name, new_test_result, normalize,
    preview_rar_step, test_rar_step, RarCode, RarFailure, RarHeader, RarPreviewStep,
};

#[test]
fn civil_epoch_anchor() {
    assert_eq!(days_from_civil(1970, 1, 1), 0);
    assert_eq!(days_from_civil(1970, 1, 2), 1);
    assert_eq!(days_from_civil(2000, 3, 1), 11017);
}

#[test]
fn dos_time_roundtrip() {
    let dos = (44u32 << 25) | (1 << 21) | (2 << 16) | (3 << 11) | (4 << 5) | 3;
    assert_eq!(dos_to_unix(dos), Some(1_704_164_646));
    assert_eq!(dos_to_unix(0), None);
    assert_eq!(dos_to_unix((44u32 << 25) | (13 << 21) | (2 << 16)), None);
}

#[test]
fn path_normalize() {
    assert_eq!(normalize("a\\b\\c.txt"), "a/b/c.txt");
    assert_eq!(normalize("a/b.txt"), "a/b.txt");
}

#[test]
fn method_label() {
    assert_eq!(method_name(0), "存储");
    assert_eq!(method_name(0x33), "RAR m3");
    assert_eq!(method_name(3), "RAR m3");
}

#[test]
fn method_label_unknown_keeps_raw_number() {
    assert_eq!(method_name(0x36), "未知(54)");
    assert_eq!(method_name(0x35), "RAR m5");
    assert_eq!(method_name(0x30), "存储");
    assert_eq!(method_name(7), "未知(7)");
}

#[test]
fn civil_days_before_epoch_and_leap_day() {
    assert_eq!(days_from_civil(1969, 12, 31), -1);
    assert_eq!(days_from_civil(2000, 2, 29), 11016);
    assert_eq!(days_from_civil(1600, 1, 1), -135140);
}

#[test]
fn dos_time_rejects_day_zero() {
    assert_eq!(dos_to_unix((44u32 << 25) | (1 << 21)), None);
}

fn header(name: &str, size: u64, is_dir: bool) -> RarHeader {
    RarHeader {
        filename: name.to_string(),
        unpacked_size: size,
        is_dir,
        file_time: (35u32 << 25) | (6 << 21) | (15 << 16),
        method: 0x33,
    }
}

#[test]
fn list_rar_maps_every_header() {
    let items = vec![Ok(header("dir\\VERSION", 11, false)), Ok(header("dir", 0, true))];
    let v = list_rar(&items, None).unwrap();
    assert_eq!(v.len(), 2);
    assert_eq!(v[0].name, "dir/VERSION");
    assert_eq!(v[0].size, 11);
    assert_eq!(v[0].compressed_size, None);
    assert!(!v[0].is_dir);
    assert_eq!(v[0].modified, Some(1_434_326_400));
    assert_eq!(v[0].method.as_deref(), Some("RAR m3"));
    assert!(v[1].is_dir);
}

#[test]
fn list_rar_stops_at_first_failure() {
    let items = vec![
        Ok(header("a", 1, false)),
        Err(RarFailure { code: RarCode::MissingPassword, detail: "x".to_string() }),
        Err(RarFailure { code: RarCode::Other, detail: "y".to_string() }),
    ];
    match list_rar(&items, None) {
        Err(AppError::BadPassword(m)) => assert_eq!(m, "该 RAR 已加密，请提供密码"),
        other => panic!("unexpected {other:?}"),
    }
}

#[test]
fn crc_errors_blame_the_password_only_when_one_was_given() {
    match map_err(RarCode::BadData, "crc", Some("pw")) {
        AppError::BadPassword(m) => {
            assert_eq!(m, "密码错误或文件已损坏（RAR 两者报同样的 CRC 错误）: crc")
        }
        other => panic!("unexpected {other:?}"),
    }
    match map_err(RarCode::BadArchive, "crc", Some("")) {
        AppError::Archive(m) => assert_eq!(m, "RAR 文件损坏: crc"),
        other => panic!("unexpected {other:?}"),
    }
    match map_err(RarCode::BadData, "crc", None) {
        AppError::Archive(m) => assert_eq!(m, "RAR 文件损坏: crc"),
        other => panic!("unexpected {other:?}"),
    }
}

#[test]
fn rar_error_kinds() {
    match map_err(RarCode::BadPassword, "", None) {
        AppError::BadPassword(m) => assert_eq!(m, "密码错误，无法解压 RAR"),
        other => panic!("unexpected {other:?}"),
    }
    match map_err(RarCode::UnknownFormat, "", None) {
        AppError::Archive(m) => assert_eq!(m, "不是有效的 RAR 文件（可能是分卷中间卷）"),
        other => panic!("unexpected {other:?}"),
    }
    match map_err(RarCode::EOpen, "gone", None) {
        AppError::Archive(m) => assert_eq!(m, "无法打开 RAR: gone"),
        other => panic!("unexpected {other:?}"),
    }
    match map_err(RarCode::Other, "odd", None) {
        AppError::Archive(m) => assert_eq!(m, "RAR 处理失败: odd"),
        other => panic!("unexpected {other:?}"),
    }
}

#[test]
fn integrity_steps_record_files_and_stop_on_failure() {
    let mut t = new_test_result();
    assert!(test_rar_step(&mut t, "d".to_string(), true, None, None));
    assert!(test_rar_step(&mut t, "d/a".to_string(), false, None, None));
    let f = RarFailure { code: RarCode::BadData, detail: "crc".to_string() };
    assert!(!test_rar_step(&mut t, "d/b".to_string(), false, Some(f), None));
    assert!(!t.ok);
    assert_eq!(t.entries.len(), 2);
    assert!(t.entries[0].ok);
    assert_eq!(t.entries[0].name, "d/a");
    assert_eq!(t.entries[1].error.as_deref(), Some("压缩/解压错误: RAR 文件损坏: crc"));
}

#[test]
fn preview_steps() {
    assert!(matches!(preview_rar_step("a", "b", false, 1), RarPreviewStep::Skip));
    assert!(matches!(preview_rar_step("a", "a", false, 1), RarPreviewStep::Read));
    match preview_rar_step("a", "a", true, 1) {
        RarPreviewStep::Fail(AppError::Archive(m)) => assert_eq!(m, "该条目是目录，无法预览"),
        _ => panic!("directory must be refused"),
    }
    match preview_rar_step("a", "a", false, 64 * 1024 * 1024 + 1) {
        RarPreviewStep::Fail(AppError::Archive(m)) => {
            assert_eq!(m, "该条目超过 64 MB，请先解压后再查看")
        }
        _ => panic!("large entry must be refused"),
    }
    assert!(matches!(
        preview_rar_step("a", "a", false, 64 * 1024 * 1024),
        RarPreviewStep::Read
    ));
}

#[test]
fn multi_volume_sets_start_at_their_first_volume() {
    assert_eq!(first_volume("path/archive.part33.rar").as_deref(), Some("path/archive.part01.rar"));
    assert_eq!(first_volume("path/archive.rar"), None);
    assert_eq!(resolve_first_part("a.rar", None, false).unwrap(), "a.rar");
    assert_eq!(resolve_first_part("a.part2.rar", Some("a.part1.rar".to_string()), true).unwrap(), "a.part1.rar");
    match resolve_first_part("a.part2.rar", Some("a.part1.rar".to_string()), false) {
        Err(AppError::Archive(m)) => {
            assert_eq!(m, "分卷不完整：找不到第一卷 a.part1.rar，请把整个分卷系列放在一起后打开第一卷")
        }
        other => panic!("unexpected {other:?}"),
    }
}
