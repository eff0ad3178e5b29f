use arkbox::paths::{common_ancestor_all_exec, compress_dest, extract_dest};
use std::path::Path;

#[test]
fn single_file_dest() {
    assert_eq!(Path::new(&compress_dest(&vec!["/a/b.txt".to_string()])), Path::new("/a/b.zip"));
}

#[test]
fn single_dir_dest() {
    assert_eq!(Path::new(&compress_dest(&vec!["/a/b".to_string()])), Path::new("/a/b.zip"));
}

#[test]
fn multi_common_dir_named() {
    let d = compress_dest(&vec!["/a/b/f1.txt".to_string(), "/a/b/sub/f2.txt".to_string()]);
    assert_eq!(Path::new(&d), Path::new("/a/b.zip"));
}

#[test]
fn multi_no_common_falls_back() {
    let d = compress_dest(&vec!["/a/x.txt".to_string(), "/c/y.txt".to_string()]);
    assert_eq!(Path::new(&d), Path::new("./Archive.zip"));
}

#[test]
fn extract_dest_strips_ext() {
    assert_eq!(Path::new(&extract_dest("/a/b.zip")), Path::new("/a/b"));
    assert_eq!(Path::new(&extract_dest("/a/b.tar.gz")), Path::new("/a/b.tar"));
}

#[test]
fn relative_single_file_dest() {
    assert_eq!(compress_dest(&vec!["b.txt".to_string()]), "b.zip");
}

#[test]
fn multi_files_in_root_fall_back() {
    let d = compress_dest(&vec!["/x.txt".to_string(), "/y.txt".to_string()]);
    assert_eq!(Path::new(&d), Path::new("./Archive.zip"));
}

fn ancestor(paths: &[&str]) -> String {
    let v: Vec<String> = paths.iter().map(|p| p.to_string()).collect();
    common_ancestor_all_exec(&v).into_iter().collect()
}

#[test]
fn common_ancestor_is_the_shared_prefix() {
    assert_eq!(ancestor(&["/a/b/f1", "/a/b/c/f2"]), "/a/b");
    assert_eq!(ancestor(&["/a/b/c/f2", "/a/b/f1"]), "/a/b");
    assert_eq!(ancestor(&["/a/b/", "/a/b"]), "/a/b");
    assert_eq!(ancestor(&["/a/./b", "/a/b"]), "/a/b");
    assert_eq!(ancestor(&["/a/x", "/c/y"]), "/");
    assert_eq!(ancestor(&["a/x", "b/y"]), "");
}
