use arkbox::error::AppError;
use arkbox::sevenzip_cli::{
    extract_args, extract_outcome, launch_failure, list_args, list_outcome, parse_list, parse_u64,
    preview_args, preview_basename, preview_outcome, test_args, test_outcome,
};

const LISTING: &str = "\
7-Zip 23.01 (x64)

Listing archive: a.iso

--
Path = a.iso
Type = Iso

----------
Path = docs
Size = 0
Attributes = D
Method = 

Path = docs/readme.txt
Size = 1234
Packed Size = 600
Attributes = A
Method = LZMA2:24

Path = weird
Size = 12x
Packed Size = +7
";

#[test]
fn listing_blocks_become_entries() {
    let v = parse_list(LISTING);
    assert_eq!(v.len(), 4);
    assert_eq!(v[0].name, "a.iso");
    assert_eq!(v[0].size, 0);
    assert_eq!(v[1].name, "docs");
    assert!(v[1].is_dir);
    assert_eq!(v[1].method.as_deref(), Some(""));
    assert_eq!(v[2].name, "docs/readme.txt");
    assert_eq!(v[2].size, 1234);
    assert_eq!(v[2].compressed_size, Some(600));
    assert!(!v[2].is_dir);
    assert_eq!(v[2].method.as_deref(), Some("LZMA2:24"));
    assert_eq!(v[2].modified, None);
    assert_eq!(v[3].name, "weird");
    assert_eq!(v[3].size, 0);
    assert_eq!(v[3].compressed_size, Some(7));
    assert_eq!(v[3].method, None);
}

#[test]
fn listing_handles_crlf_and_blank_paths() {
    let v = parse_list("Path = x\r\nSize = 3\r\n\r\nPath = \r\nSize = 9\r\n");
    assert_eq!(v.len(), 1);
    assert_eq!(v[0].name, "x");
    assert_eq!(v[0].size, 3);
    assert!(parse_list("").is_empty());
}

#[test]
fn u64_parsing_follows_from_str() {
    let p = |s: &str| parse_u64(&s.chars().collect::<Vec<char>>());
    assert_eq!(p("0"), Some(0));
    assert_eq!(p("+42"), Some(42));
    assert_eq!(p("18446744073709551615"), Some(u64::MAX));
    assert_eq!(p("18446744073709551616"), None);
    assert_eq!(p(""), None);
    assert_eq!(p("+"), None);
    assert_eq!(p("-1"), None);
    assert_eq!(p(" 1"), None);
}

#[test]
fn command_lines() {
    assert_eq!(list_args("a.iso", None), vec!["l", "-slt", "a.iso"]);
    assert_eq!(list_args("a.iso", Some("")), vec!["l", "-slt", "a.iso"]);
    assert_eq!(list_args("a.iso", Some("pw")), vec!["l", "-slt", "a.iso", "-ppw"]);
    let es = vec!["x/1".to_string(), "y".to_string()];
    assert_eq!(
        extract_args("a.cab", "/out", Some(&es), Some("s")),
        vec!["x", "a.cab", "-o", "/out", "-y", "x/1", "y", "-ps"]
    );
    assert_eq!(extract_args("a.cab", "/out", None, None), vec!["x", "a.cab", "-o", "/out", "-y"]);
    assert_eq!(
        preview_args("a.dmg", "d/e.txt", "/tmp/q", None),
        vec!["e", "a.dmg", "d/e.txt", "-o/tmp/q", "-y"]
    );
    assert_eq!(test_args("a.rpm", Some("k")), vec!["t", "a.rpm", "-pk"]);
}

#[test]
fn outcomes() {
    match list_outcome(false, b"", b"bad") {
        Err(AppError::UnsupportedFormat(m)) => assert_eq!(m, "7z 列出失败: bad"),
        other => panic!("unexpected {other:?}"),
    }
    assert_eq!(list_outcome(true, b"Path = q\n", b"").unwrap()[0].name, "q");
    match extract_outcome(false, b"oops", 0, "/d") {
        Err(AppError::Archive(m)) => assert_eq!(m, "7z 解压失败: oops"),
        other => panic!("unexpected {other:?}"),
    }
    let r = extract_outcome(true, b"", 3, "/d").unwrap();
    assert_eq!(r.extracted, 3);
    assert_eq!(r.dest, "/d");
    match preview_outcome(false, b"no", "e", None, 10) {
        Err(AppError::Archive(m)) => assert_eq!(m, "7z 提取条目失败: no"),
        other => panic!("unexpected {other:?}"),
    }
    match preview_outcome(true, b"", "e", None, 10) {
        Err(AppError::UnsupportedFormat(m)) => assert_eq!(m, "归档内找不到条目: e"),
        other => panic!("unexpected {other:?}"),
    }
    let p = preview_outcome(true, b"", "e.txt", Some(b"hi"), 10).unwrap();
    assert_eq!(p.text.as_deref(), Some("hi"));
    match launch_failure("not found") {
        AppError::Other(m) => assert_eq!(m, "调用 7z 失败: not found"),
        other => panic!("unexpected {other:?}"),
    }
}

#[test]
fn integrity_needs_success_and_the_all_clear() {
    assert!(test_outcome(true, b"...\nEverything is Ok\n").ok);
    assert!(!test_outcome(false, b"Everything is Ok").ok);
    assert!(!test_outcome(true, b"Errors: 1").ok);
    assert!(test_outcome(true, b"").entries.is_empty());
}

#[test]
fn extracted_file_names() {
    assert_eq!(preview_basename("dir/sub/file.txt"), "file.txt");
    assert_eq!(preview_basename("file"), "file");
    assert_eq!(preview_basename("a/.."), "a_..");
    assert_eq!(preview_basename(""), "");
    assert_eq!(preview_basename("x\\y/.."), "x_y_..");
}
