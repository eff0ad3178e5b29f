use arkbox::apple_double::{build, parse, XattrMap};

#[test]
fn roundtrip() {
    let mut others = XattrMap::new();
    others.insert("com.example.a".to_string(), b"hello".to_vec());
    others.insert("com.example.b".to_string(), vec![1, 2, 3, 0, 255]);
    let fi = [7u8; 32];
    let blob = build(&fi, &others);
    let (fi2, others2) = parse(&blob).unwrap();
    assert_eq!(fi, fi2);
    assert_eq!(others, others2);
}

#[test]
fn build_writes_magic_version_and_two_entries() {
    let blob = build(&[0u8; 32], &XattrMap::new());
    assert_eq!(&blob[0..4], &[0x00, 0x05, 0x16, 0x07]);
    assert_eq!(&blob[4..8], &[0x00, 0x02, 0x00, 0x00]);
    assert_eq!(&blob[8..24], &[0u8; 16]);
    assert_eq!(&blob[24..26], &[0, 2]);
    // header 26 + two table rows of 12 + 32 bytes of Finder info + empty blob
    assert_eq!(blob.len(), 26 + 24 + 32);
    // first row: id 9 at offset 50, 32 bytes
    assert_eq!(&blob[26..38], &[0, 0, 0, 9, 0, 0, 0, 50, 0, 0, 0, 32]);
    // second row: id 10 at offset 82, 0 bytes
    assert_eq!(&blob[38..50], &[0, 0, 0, 10, 0, 0, 0, 82, 0, 0, 0, 0]);
}

#[test]
fn xattr_blob_layout_is_name_nul_length_value() {
    let mut others = XattrMap::new();
    others.insert("k".to_string(), vec![9, 8]);
    let blob = build(&[1u8; 32], &others);
    assert_eq!(&blob[82..], &[b'k', 0, 0, 0, 0, 2, 9, 8]);
}

#[test]
fn parse_rejects_short_and_foreign_data() {
    assert!(parse(&[]).is_none());
    assert!(parse(&[0u8; 25]).is_none());
    let mut wrong_magic = build(&[0u8; 32], &XattrMap::new());
    wrong_magic[3] = 0x08;
    assert!(parse(&wrong_magic).is_none());
}

#[test]
fn parse_rejects_entry_past_the_end() {
    let mut blob = build(&[0u8; 32], &XattrMap::new());
    blob.truncate(60);
    assert!(parse(&blob).is_none());
}

#[test]
fn insert_keeps_names_sorted_and_replaces() {
    let mut m = XattrMap::new();
    assert!(m.is_empty());
    assert_eq!(m.insert("b".to_string(), vec![1]), None);
    assert_eq!(m.insert("a".to_string(), vec![2]), None);
    assert_eq!(m.insert("b".to_string(), vec![3]), Some(vec![1]));
    assert_eq!(m.len(), 2);
    assert_eq!(m.pair_at(0), ("a".to_string(), vec![2]));
    assert_eq!(m.pair_at(1), ("b".to_string(), vec![3]));
}
