use arkbox::crypto::mask_password;
use arkbox::error::{error_payload, to_string_err, AppError};
use arkbox::keychain::{add_password_args, find_password_args, save_outcome, stored_password};
use arkbox::model::PresetConfig;
use arkbox::presets::{delete_preset, save_preset};
use arkbox::quicklook::{
    day_of_year_to_md, fmt_modified, format_unix_utc, html_escape, icon_glyph, is_leap,
};
use arkbox::model::EntryInfo;

#[test]
fn masks() {
    assert_eq!(mask_password(""), "<空>");
    assert_eq!(mask_password("abc"), "************");
    assert_eq!(mask_password("密码"), "************");
    assert_eq!(mask_password("ab"), mask_password("abc"));
    assert_eq!(mask_password("0123456789abcdef"), "************");
}

#[test]
fn error_messages() {
    assert_eq!(to_string_err(&AppError::Io("disk".to_string())), "IO 错误: disk");
    assert_eq!(to_string_err(&AppError::Archive("x".to_string())), "压缩/解压错误: x");
    assert_eq!(to_string_err(&AppError::UnsupportedFormat("y".to_string())), "不支持的格式: y");
    assert_eq!(
        to_string_err(&AppError::BadPassword("z".to_string())),
        "密码错误或损坏的压缩包: z"
    );
    assert_eq!(to_string_err(&AppError::Config("c".to_string())), "配置错误: c");
    assert_eq!(to_string_err(&AppError::Other("plain".to_string())), "plain");
    assert_eq!(error_payload(&AppError::Config("c".to_string())).message, "配置错误: c");
}

#[test]
fn keychain_commands_and_answers() {
    assert_eq!(
        add_password_args("/a.zip", "pw"),
        vec!["add-generic-password", "-a", "/a.zip", "-s", "arkbox", "-w", "pw", "-U"]
    );
    assert_eq!(find_password_args("/a.zip"), vec!["find-generic-password", "-a", "/a.zip", "-s", "arkbox", "-w"]);
    assert!(save_outcome(true, Some(0)).is_ok());
    match save_outcome(false, Some(45)) {
        Err(AppError::Other(m)) => assert_eq!(m, "保存密码到钥匙串失败 (exit 45)"),
        other => panic!("unexpected {other:?}"),
    }
    match save_outcome(false, None) {
        Err(AppError::Other(m)) => assert_eq!(m, "保存密码到钥匙串失败 (exit -1)"),
        other => panic!("unexpected {other:?}"),
    }
    assert_eq!(stored_password(true, b"pw123\n".to_vec()), Some("pw123".to_string()));
    assert_eq!(stored_password(true, b"  \n".to_vec()), None);
    assert_eq!(stored_password(false, b"pw123\n".to_vec()), None);
    assert_eq!(stored_password(true, vec![0xff, 0xfe]), None);
}

fn preset(name: &str, level: u8) -> PresetConfig {
    PresetConfig {
        name: name.to_string(),
        format: "zip".to_string(),
        password: None,
        level,
        exclude: vec![],
        compress_hidden: false,
    }
}

#[test]
fn presets_replace_and_delete_by_name() {
    let v = save_preset(vec![preset("a", 1), preset("b", 2)], preset("a", 9)).unwrap();
    assert_eq!(v.len(), 2);
    assert_eq!(v[0].name, "b");
    assert_eq!(v[1].name, "a");
    assert_eq!(v[1].level, 9);
    let w = delete_preset(v, &"a".to_string());
    assert_eq!(w.len(), 1);
    assert_eq!(w[0].name, "b");
    match save_preset(w, preset("  ", 3)) {
        Err(AppError::Config(m)) => assert_eq!(m, "预设名称不能为空"),
        other => panic!("unexpected {other:?}"),
    }
}

#[test]
fn dates_for_display() {
    assert_eq!(format_unix_utc(0), "1970-01-01 00:00");
    assert_eq!(format_unix_utc(1_704_164_646), "2024-01-02 03:04");
    assert_eq!(format_unix_utc(951_782_400), "2000-02-29 00:00");
    assert!(is_leap(2000));
    assert!(!is_leap(1900));
    assert!(is_leap(2024));
    assert_eq!(day_of_year_to_md(2023, 59), (3, 1));
    assert_eq!(day_of_year_to_md(2024, 59), (2, 29));
    assert_eq!(day_of_year_to_md(2024, 400), (12, 31));
    let e = EntryInfo {
        name: "a".to_string(),
        size: 0,
        compressed_size: None,
        is_dir: false,
        modified: None,
        method: None,
    };
    assert_eq!(fmt_modified(&e), "—");
}

#[test]
fn html_and_icons() {
    assert_eq!(html_escape("<a href=\"x\">&</a>"), "&lt;a href=&quot;x&quot;&gt;&amp;&lt;/a&gt;");
    assert_eq!(icon_glyph("x", true), "📁");
    assert_eq!(icon_glyph("Photo.JPG", false), "🖼️");
    assert_eq!(icon_glyph("a.tar.gz", false), "🗜️");
    assert_eq!(icon_glyph("song.flac", false), "🎵");
    assert_eq!(icon_glyph("noext", false), "📄");
}

#[test]
fn explorer_menu_entries() {
    let m = arkbox::shell_menu::context_menu("C:\\Program Files\\ArkBox\\arkbox.exe");
    assert_eq!(m.len(), 3);
    assert_eq!(m[0].key, "Software\\Classes\\*\\shell\\ArkBoxExtract");
    assert_eq!(m[0].label, "用 ArkBox 解压");
    assert_eq!(m[0].icon, "\"C:\\Program Files\\ArkBox\\arkbox.exe\"");
    assert_eq!(m[0].command_key, "Software\\Classes\\*\\shell\\ArkBoxExtract\\command");
    assert_eq!(m[0].command, "\"C:\\Program Files\\ArkBox\\arkbox.exe\" \"%1\"");
    assert_eq!(m[1].key, "Software\\Classes\\*\\shell\\ArkBoxCompress");
    assert_eq!(m[1].command, "\"C:\\Program Files\\ArkBox\\arkbox.exe\" --compress \"%1\"");
    assert_eq!(m[2].key, "Software\\Classes\\Directory\\shell\\ArkBoxCompress");
    assert_eq!(m[2].label, "用 ArkBox 压缩");
    assert_eq!(m[2].command, m[1].command);
}
