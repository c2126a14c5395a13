use git_sync::codec::{
    decode_pack, encode_pack, export_text, extract_records, has_pack, json_line, lfs_record, object_dirs,
    split_import,
};

#[test]
fn pack_export_round_trip() {
    let pack = encode_pack(&b"ABC".to_vec());
    assert_eq!(pack, "QUJD");
    let text = export_text("{\"type\":\"Tag\"}", &pack);
    assert_eq!(text, "{\"type\":\"Tag\"}\nQUJD");
    let (json, body) = split_import(&text.into_bytes());
    assert_eq!(json, b"{\"type\":\"Tag\"}".to_vec());
    assert_eq!(body, b"QUJD".to_vec());
    assert_eq!(decode_pack(&body), Some(b"ABC".to_vec()));
}

#[test]
fn split_import_drops_later_line_feeds() {
    let (json, body) = split_import(&b"{j}\nQU\nJD\n".to_vec());
    assert_eq!(json, b"{j}".to_vec());
    assert_eq!(body, b"QUJD".to_vec());
    let (json, body) = split_import(&b"only json".to_vec());
    assert_eq!(json, b"only json".to_vec());
    assert!(body.is_empty());
}

#[test]
fn base64_of_known_values() {
    assert_eq!(encode_pack(&b"hello".to_vec()), "aGVsbG8=");
    assert_eq!(encode_pack(&Vec::new()), "");
    assert_eq!(decode_pack(&b"aGVsbG8=".to_vec()), Some(b"hello".to_vec()));
    assert_eq!(decode_pack(&b"not base64!".to_vec()), None);
}

#[test]
fn pack_presence() {
    assert!(!has_pack(&b"QUJD".to_vec()));
    assert!(has_pack(&b"QUJDR".to_vec()));
}

#[test]
fn lfs_records_are_framed_and_read_back() {
    let mut file = b"{\"mapping\":{\"ab12\":\"a.bin\"}}".to_vec();
    file.extend(lfs_record("ab12", b"hi"));
    file.extend(lfs_record("cd34", b"x"));
    assert_eq!(file[file.len() - 10..].to_vec(), b"\ncd34:eA==".to_vec());
    let records = extract_records(&file);
    assert_eq!(
        records,
        vec![(b"ab12".to_vec(), b"aGk=".to_vec()), (b"cd34".to_vec(), b"eA==".to_vec())]
    );
    assert_eq!(decode_pack(&records[0].1), Some(b"hi".to_vec()));
}

#[test]
fn reading_records_keeps_what_follows_the_first_colon() {
    let records = extract_records(&b"{}\nid:a:b\n".to_vec());
    assert_eq!(records, vec![(b"id".to_vec(), b"a:b".to_vec()), (Vec::new(), Vec::new())]);
    let records = extract_records(&b"{no records}".to_vec());
    assert_eq!(records, vec![(Vec::new(), Vec::new())]);
}

#[test]
fn json_line_of_an_export() {
    assert_eq!(json_line(&b"{\"a\":1}\nab:cd".to_vec()), b"{\"a\":1}".to_vec());
    assert_eq!(json_line(&b"{\"a\":1}".to_vec()), b"{\"a\":1}".to_vec());
}

#[test]
fn object_store_folders() {
    assert_eq!(object_dirs("abcdef0123"), ("ab".to_string(), "cd".to_string()));
    assert_eq!(object_dirs("a"), ("a".to_string(), "".to_string()));
}

#[test]
fn json_of_an_lfs_export() {
    let json = b"{\"export\":\"20240102-030405\",\"mapping\":{\"ab12\":\"a.bin\"},\"type\":\"All\"}".to_vec();
    let mut file = json.clone();
    file.extend(lfs_record("ab12", b"content"));
    assert_eq!(json_line(&file), json);
    let records = extract_records(&file);
    assert_eq!(records.len(), 1);
    assert_eq!(records[0].0, b"ab12".to_vec());
    assert_eq!(decode_pack(&records[0].1), Some(b"content".to_vec()));
}
