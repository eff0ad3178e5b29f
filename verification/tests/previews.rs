use arkbox::preview::{
    build_preview, guess_mime, looks_binary, mime_for, mime_of, preview_stream_data, read_preview,
};

#[test]
fn text_preview_is_decoded() {
    let p = read_preview(b"line one\nline two", "note.txt", 1000);
    assert!(!p.is_binary);
    assert!(!p.truncated);
    assert_eq!(p.mime, "text/plain");
    assert_eq!(p.text.as_deref(), Some("line one\nline two"));
    assert_eq!(p.data_base64, None);
    assert_eq!(p.name, "note.txt");
}

#[test]
fn binary_preview_is_base64() {
    let p = read_preview(&[0x89, b'P', b'N', b'G', 0, 1, 2], "pic.PNG", 1000);
    assert!(p.is_binary);
    assert_eq!(p.mime, "image/png");
    assert_eq!(p.text, None);
    assert_eq!(p.data_base64.as_deref(), Some("iVBORwABAg=="));
}

#[test]
fn preview_is_cut_at_the_limit() {
    let p = read_preview(b"abcdef", "a.txt", 4);
    assert!(p.truncated);
    assert_eq!(p.text.as_deref(), Some("abcd"));
    let q = read_preview(b"abcd", "a.txt", 4);
    assert!(q.truncated);
    let r = read_preview(b"abc", "a.txt", 4);
    assert!(!r.truncated);
}

#[test]
fn invalid_utf8_text_is_shown_lossily() {
    let p = read_preview(&[b'a', 0xff, b'b'], "x.txt", 100);
    assert!(!p.is_binary);
    assert_eq!(p.text.as_deref(), Some("a\u{fffd}b"));
}

#[test]
fn zero_byte_after_eight_kib_is_not_binary() {
    let mut data = vec![b'a'; 8192];
    data.push(0);
    assert!(!looks_binary(&data));
    data[8191] = 0;
    assert!(looks_binary(&data));
}

#[test]
fn mime_tables() {
    assert_eq!(guess_mime("a.txt", false), "text/plain");
    assert_eq!(guess_mime("a.JPEG", true), "image/jpeg");
    assert_eq!(guess_mime("a.webp", true), "image/webp");
    assert_eq!(guess_mime("a.pdf", true), "application/octet-stream");
    assert_eq!(mime_for("a.pdf"), "application/pdf");
    assert_eq!(mime_for("a.webp"), "application/octet-stream");
    assert_eq!(mime_of("dir/readme.MD"), "text/markdown");
    assert_eq!(mime_of("index.htm"), "text/html");
    assert_eq!(mime_of("app.js"), "application/javascript");
    assert_eq!(mime_of(".json"), "application/octet-stream");
    assert_eq!(mime_of("noext"), "application/octet-stream");
}

#[test]
fn single_stream_preview() {
    let p = preview_stream_data(b"hello world", "hello.txt", 5);
    assert!(p.truncated);
    assert_eq!(p.text.as_deref(), Some("hello"));
    let q = preview_stream_data(b"hello", "hello.txt", 5);
    assert!(!q.truncated);
    let b = preview_stream_data(&[b'a', 0, b'b'], "x.pdf", 10);
    assert!(b.is_binary);
    assert_eq!(b.mime, "application/pdf");
    assert_eq!(b.data_base64.as_deref(), Some("YQBi"));
    let bad = preview_stream_data(&[0xc3], "x.bin", 10);
    assert!(bad.is_binary);
}

#[test]
fn command_line_engine_preview() {
    let p = build_preview("dir/a.json", b"{\"k\":1}", 100);
    assert!(!p.is_binary);
    assert_eq!(p.mime, "text/plain");
    let b = build_preview("dir/a.json", &[b'{', 0], 100);
    assert!(b.is_binary);
    assert_eq!(b.mime, "application/json");
    let bad = build_preview("a.png", &[0xff, 0xfe], 100);
    assert!(bad.is_binary);
    assert_eq!(bad.mime, "image/png");
    let repl = build_preview("a.txt", "x\u{fffd}".as_bytes(), 100);
    assert!(repl.is_binary);
    let t = build_preview("a.txt", b"abcdef", 3);
    assert!(t.truncated);
    assert_eq!(t.text.as_deref(), Some("abc"));
}
