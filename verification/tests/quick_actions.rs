use arkbox::cli::{
    cli_compress, cli_extract, cli_mode, compress_failed, extract_failed, ql_args, CliMode, CliPlan, PendingOpen,
};
use arkbox::error::AppError;
use arkbox::model::EntryInfo;
use arkbox::quicklook::{listing_total, render, render_error};
use arkbox::rar::{test_rar, RarCode, RarFailure, RarTestItem};

fn strings(v: &[&str]) -> Vec<String> {
    v.iter().map(|s| s.to_string()).collect()
}

#[test]
fn quick_compress_plan() {
    match cli_compress(&vec![]) {
        CliPlan::Notify(m) => assert_eq!(m, "未收到任何文件"),
        _ => panic!("nothing to do"),
    }
    match cli_compress(&strings(&["/a/b/f1.txt", "/a/b/sub/f2.txt"])) {
        CliPlan::Compress { dest } => assert_eq!(dest, "/a/b.zip"),
        _ => panic!("a compression"),
    }
}

#[test]
fn quick_extract_plan() {
    match cli_extract(&strings(&["/x/a.zip", "b.tar.gz"])) {
        CliPlan::Extract { jobs } => {
            assert_eq!(jobs, vec![
                ("/x/a.zip".to_string(), "/x/a".to_string()),
                ("b.tar.gz".to_string(), "b.tar".to_string()),
            ]);
        }
        _ => panic!("extractions"),
    }
    assert!(matches!(cli_extract(&vec![]), CliPlan::Notify(_)));
}

#[test]
fn failure_messages() {
    let e = AppError::Archive("boom".to_string());
    assert_eq!(compress_failed(&e), "压缩失败：压缩/解压错误: boom");
    assert_eq!(extract_failed("/a.zip", &e), "解压失败（/a.zip）：压缩/解压错误: boom");
}

#[test]
fn command_line_modes() {
    assert!(matches!(cli_mode(&strings(&["bz-cli", "compress"])), CliMode::Usage));
    match cli_mode(&strings(&["bz-cli", "compress", "/a", "/b"])) {
        CliMode::Compress(p) => assert_eq!(p, strings(&["/a", "/b"])),
        _ => panic!("compress mode"),
    }
    match cli_mode(&strings(&["bz-cli", "extract", "/a"])) {
        CliMode::Extract(p) => assert_eq!(p, strings(&["/a"])),
        _ => panic!("extract mode"),
    }
    match cli_mode(&strings(&["bz-cli", "zap", "/a"])) {
        CliMode::Unknown(m) => assert_eq!(m, "zap"),
        _ => panic!("unknown mode"),
    }
}

#[test]
fn quick_look_arguments() {
    assert_eq!(ql_args(&strings(&["ql", "a.zip"])), (None, Some("a.zip".to_string())));
    assert_eq!(
        ql_args(&strings(&["ql", "--password", "pw", "a.zip", "b.zip"])),
        (Some("pw".to_string()), Some("a.zip".to_string()))
    );
    assert_eq!(ql_args(&strings(&["ql", "a.zip", "-p"])), (None, Some("a.zip".to_string())));
    assert_eq!(
        ql_args(&strings(&["ql", "--password=x", "--password=y"])),
        (Some("y".to_string()), None)
    );
    assert_eq!(ql_args(&strings(&["ql"])), (None, None));
}

#[test]
fn pending_archives_are_taken_once() {
    let mut q = PendingOpen::new();
    q.extend(strings(&["/a.zip"]));
    q.extend(strings(&["/b.7z", "/c.rar"]));
    assert_eq!(q.take(), strings(&["/a.zip", "/b.7z", "/c.rar"]));
    assert!(q.take().is_empty());
}

#[test]
fn quick_look_error_page() {
    let page = render_error("/x/<a>.zip", "bad & worse");
    let expected = format!(
        "<!DOCTYPE html><html><head><meta charset=\"utf-8\">\
<style>body{{font-family:-apple-system,sans-serif;padding:24px;color:#1d1d1f;}} \
.err{{color:#b00;font-weight:600;}} .mut{{color:#86868b;font-size:12px;}}</style>\
</head><body><div class=\"title\">{title}</div>\
<div class=\"err\" style=\"margin-top:12px\">无法预览此压缩包</div>\
<div class=\"mut\" style=\"margin-top:6px\">{msg}</div>\
<div class=\"mut\" style=\"margin-top:18px\">ArkBox · Quick Look 预览</div>\
</body></html>",
        title = "&lt;a&gt;.zip",
        msg = "bad &amp; worse",
    );
    assert_eq!(page, expected);
}

#[test]
fn rar_check_stops_at_first_failure() {
    let items = vec![
        RarTestItem { name: "d".to_string(), is_dir: true, failure: None },
        RarTestItem { name: "d/a".to_string(), is_dir: false, failure: None },
        RarTestItem {
            name: "d/b".to_string(),
            is_dir: false,
            failure: Some(RarFailure { code: RarCode::BadData, detail: "File CRC error".to_string() }),
        },
        RarTestItem { name: "d/c".to_string(), is_dir: false, failure: None },
    ];
    let t = test_rar(&items, Some("pw"));
    assert!(!t.ok);
    assert_eq!(t.entries.len(), 2);
    assert_eq!(t.entries[0].name, "d/a");
    assert_eq!(
        t.entries[1].error.as_deref(),
        Some("密码错误或损坏的压缩包: 密码错误或文件已损坏（RAR 两者报同样的 CRC 错误）: File CRC error")
    );
    let ok = test_rar(&items[..2].iter().map(|i| RarTestItem { name: i.name.clone(), is_dir: i.is_dir, failure: None }).collect(), None);
    assert!(ok.ok);
    assert_eq!(ok.entries.len(), 1);
}

fn page_row(glyph: &str, pad: usize, name: &str, size: &str, method: &str, modified: &str) -> String {
    format!(
        "<tr><td class=\"ic\">{glyph}</td><td style=\"padding-left:{pad}px\">{name}</td><td class=\"num\">{size}</td><td class=\"mut\">{method}</td><td class=\"mut\">{modified}</td></tr>"
    )
}

#[test]
fn quick_look_listing_page() {
    let entries = vec![
        EntryInfo { name: "docs".to_string(), size: 0, compressed_size: None, is_dir: true, modified: None, method: None },
        EntryInfo {
            name: "docs/a&b.txt".to_string(),
            size: 2048,
            compressed_size: Some(10),
            is_dir: false,
            modified: Some(0),
            method: Some("Deflated".to_string()),
        },
    ];
    assert_eq!(listing_total(&entries), Some(2048));
    let labels = vec!["—".to_string(), "2.0 KB".to_string()];
    let page = render("/tmp/x.zip", &entries, true, &labels, "2.0 KB");
    let rows = page_row("📁", 0, "docs", "—", "—", "—")
        + &page_row("📄", 16, "docs/a&amp;b.txt", "2.0 KB", "Deflated", "1970-01-01 00:00");
    assert!(page.contains(&rows));
    assert!(page.contains("<span class=\"title\">x.zip</span><span class=\"lock\">🔒 已加密</span>"));
    assert!(page.contains("1 个文件 · 1 个文件夹 · 共 2.0 KB"));
    assert!(page.ends_with("</table><div class=\"sum\">ArkBox · Quick Look 预览</div></div></body></html>"));
    let plain = render("/tmp/x.zip", &entries, false, &labels, "2.0 KB");
    assert!(!plain.contains("lock\">"));
}
